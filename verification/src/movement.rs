//! Motion: the forces on an entity, how requests change them, how damping
//! wears the inactive ones down, and how they add up to a velocity.

use vstd::prelude::*;
use vstd::seq_lib::seq_to_set_is_finite;
use vstd::set::fold::lemma_fold_empty;
use vstd::set::fold::lemma_fold_insert;
use crate::components::Position;
use crate::force::{Force, ForceView, PartialForce, PartialForceView};
use crate::scalar::{magnitude, mul_fixed, product, saturate, saturate_from, UNIT};
use crate::tables::{
    force_entries, force_table_get, force_table_insert, force_table_keys, force_table_new,
    ForceTable,
};
use crate::vector::Vec2;

verus! {

/// The motion of one entity.
///
/// The velocity is computed from the forces on every tick; change it through
/// the forces, with [`Movement::apply_force`].
#[derive(Debug)]
pub struct Movement {
    /// Displacement per tick, as the last tick computed it.
    pub velocity: Vec2,
    /// The forces that act on the entity, by name.
    pub forces: ForceTable,
    /// Factor per second, and per axis, by which inactive forces shrink.
    pub damping: Vec2,
}

/// The force that a table holds under the request's name once the request is
/// applied: the existing force mixed with the request, or, where the table
/// has none of that name, the force that the request describes on its own.
pub open spec fn applied(table: Map<Seq<char>, ForceView>, partial: PartialForceView) -> ForceView {
    if table.contains_key(partial.id) {
        table[partial.id].mixed(partial)
    } else {
        partial.materialized()
    }
}

/// One tick of damping on one force: an active force is left alone, an
/// inactive one has its vector multiplied component-wise by `factor`.
pub open spec fn worn(f: ForceView, factor: Vec2) -> ForceView {
    if f.active {
        f
    } else {
        f.scaled(factor)
    }
}

/// Adds to `acc` what the force named `k` contributes along x in one tick.
pub open spec fn add_x(table: Map<Seq<char>, ForceView>, dt: int) -> spec_fn(int, Seq<char>) -> int {
    |acc: int, k: Seq<char>| acc + saturate(product(table[k].force.x as int, dt))
}

/// Adds to `acc` what the force named `k` contributes along y in one tick.
pub open spec fn add_y(table: Map<Seq<char>, ForceView>, dt: int) -> spec_fn(int, Seq<char>) -> int {
    |acc: int, k: Seq<char>| acc + saturate(product(table[k].force.y as int, dt))
}

/// The sum over all forces of the force's vector multiplied by `dt`: the
/// displacement of one tick, before the speed limit. The sum is exact and
/// saturated once.
pub open spec fn pushed(table: Map<Seq<char>, ForceView>, dt: int) -> Vec2 {
    Vec2 {
        x: saturate(table.dom().fold(0int, add_x(table, dt))) as i64,
        y: saturate(table.dom().fold(0int, add_y(table, dt))) as i64,
    }
}

/// The greatest displacement of one tick of length `dt`.
pub open spec fn speed_limit(dt: int) -> int {
    saturate(product(Movement::MAX_VELOCITY as int, dt))
}

impl Movement {
    /// Raw value of the greatest speed, 256 units per second.
    pub const MAX_VELOCITY: i64 = 256_000_000;

    /// The forces on the entity, by name.
    pub open spec fn table(&self) -> Map<Seq<char>, ForceView> {
        force_entries(self.forces)
    }

    /// A movement at rest, without forces, with the given damping.
    pub fn damped(damping: Vec2) -> (r: Movement)
        ensures
            r.velocity == Vec2::origin(),
            r.damping == damping,
            r.table() == Map::<Seq<char>, ForceView>::empty(),
    {
        Movement { velocity: Vec2::zero(), forces: force_table_new(), damping }
    }

    /// Creates or changes the force that the request names.
    pub fn apply_force(&mut self, partial: PartialForce)
        ensures
            final(self).table() == old(self).table().insert(
                partial@.id,
                applied(old(self).table(), partial@),
            ),
            final(self).velocity == old(self).velocity,
            final(self).damping == old(self).damping,
    {
        let id = partial.id.clone();
        let new_force = match force_table_get(&self.forces, &id) {
            Some(old_force) => old_force.mix(&partial),
            None => Force::from(partial),
        };
        force_table_insert(&mut self.forces, id, new_force);
    }

    /// One tick of damping: every inactive force has its vector multiplied
    /// component-wise by `damping * dt`; active forces are left alone.
    pub fn apply_damping(&mut self, dt: i64)
        ensures
            final(self).table() == old(self).table().map_values(
                |f: ForceView| worn(f, old(self).damping.scaled_by(dt)),
            ),
            final(self).velocity == old(self).velocity,
            final(self).damping == old(self).damping,
    {
        let factor = self.damping.scale(dt);
        let keys = force_table_keys(&self.forces);
        let ghost names = keys.deep_view();
        let ghost before = self.table();
        let mut i: usize = 0;
        while i < keys.len()
            invariant
                i <= keys.len(),
                names == keys.deep_view(),
                names.no_duplicates(),
                names.to_set() == before.dom(),
                self.table().dom() == before.dom(),
                self.velocity == old(self).velocity,
                self.damping == old(self).damping,
                forall|k: Seq<char>| #[trigger]
                    before.contains_key(k) ==> self.table()[k] == if names.take(
                        i as int,
                    ).contains(k) {
                        worn(before[k], factor)
                    } else {
                        before[k]
                    },
            decreases keys.len() - i,
        {
            let key = &keys[i];
            proof {
                assert(names[i as int] == key@);
                assert(names.to_set().contains(names[i as int]));
                assert(names.take(i + 1) =~= names.take(i as int).push(key@));
                assert(!names.take(i as int).contains(key@));
            }
            let ghost earlier = self.table();
            match force_table_get(&self.forces, key) {
                Some(force) => {
                    if !force.active {
                        let updated = force.clone() * factor;
                        force_table_insert(&mut self.forces, key.clone(), updated);
                    }
                },
                None => {},
            }
            proof {
                assert(self.table().dom() =~= before.dom());
                assert forall|k: Seq<char>| #[trigger]
                    before.contains_key(k) implies self.table()[k] == if names.take(
                    i + 1,
                ).contains(k) {
                    worn(before[k], factor)
                } else {
                    before[k]
                } by {
                    let shorter = names.take(i as int);
                    let longer = names.take(i + 1);
                    if k != key@ {
                        assert(self.table()[k] == earlier[k]);
                        if longer.contains(k) {
                            let j = choose|j: int| 0 <= j < longer.len() && longer[j] == k;
                            assert(shorter[j] == k);
                        }
                        if shorter.contains(k) {
                            let j = choose|j: int| 0 <= j < shorter.len() && shorter[j] == k;
                            assert(longer[j] == k);
                        }
                    } else {
                        assert(longer[i as int] == k);
                    }
                }
            }
            i = i + 1;
        }
        proof {
            assert(names.take(keys.len() as int) =~= names);
            assert forall|k: Seq<char>| before.contains_key(k) implies names.contains(k) by {
                assert(names.to_set().contains(k));
            }
            assert(self.table() =~= before.map_values(|f: ForceView| worn(f, factor)));
        }
    }
}

impl Movement {
    /// The displacement that the forces give in one tick, before the speed
    /// limit.
    pub fn sum_of_forces(&self, dt: i64) -> (r: Vec2)
        ensures
            r == pushed(self.table(), dt as int),
    {
        let keys = force_table_keys(&self.forces);
        let ghost names = keys.deep_view();
        let ghost table = self.table();
        let ghost fx = add_x(table, dt as int);
        let ghost fy = add_y(table, dt as int);
        let mut sum_x: i128 = 0;
        let mut sum_y: i128 = 0;
        let mut i: usize = 0;
        proof {
            lemma_fold_empty(0int, fx);
            lemma_fold_empty(0int, fy);
            assert(names.take(0).to_set() =~= Set::<Seq<char>>::empty());
        }
        while i < keys.len()
            invariant
                i <= keys.len(),
                names == keys.deep_view(),
                names.no_duplicates(),
                names.to_set() == table.dom(),
                table == self.table(),
                fx == add_x(table, dt as int),
                fy == add_y(table, dt as int),
                sum_x == names.take(i as int).to_set().fold(0int, fx),
                sum_y == names.take(i as int).to_set().fold(0int, fy),
                -(i * 0x8000_0000_0000_0000) <= sum_x <= i * 0x8000_0000_0000_0000,
                -(i * 0x8000_0000_0000_0000) <= sum_y <= i * 0x8000_0000_0000_0000,
            decreases keys.len() - i,
        {
            let key = &keys[i];
            let ghost shorter = names.take(i as int);
            let ghost longer = names.take(i + 1);
            proof {
                assert(names[i as int] == key@);
                assert(names.to_set().contains(names[i as int]));
                assert(longer =~= shorter.push(key@));
                assert(!shorter.contains(key@));
                assert forall|k: Seq<char>|
                    longer.to_set().contains(k) == shorter.to_set().insert(key@).contains(
                        k,
                    ) by {
                    if longer.contains(k) {
                        let j = choose|j: int| 0 <= j < longer.len() && longer[j] == k;
                        if j < i {
                            assert(shorter[j] == k);
                        }
                    }
                    if shorter.contains(k) {
                        let j = choose|j: int| 0 <= j < shorter.len() && shorter[j] == k;
                        assert(longer[j] == k);
                    }
                    if k == key@ {
                        assert(longer[i as int] == k);
                    }
                }
                assert(longer.to_set() =~= shorter.to_set().insert(key@));
                seq_to_set_is_finite(shorter);
                assert(vstd::set::fold::is_fun_commutative(fx));
                assert(vstd::set::fold::is_fun_commutative(fy));
                lemma_fold_insert(shorter.to_set(), 0int, fx, key@);
                lemma_fold_insert(shorter.to_set(), 0int, fy, key@);
            }
            match force_table_get(&self.forces, key) {
                Some(force) => {
                    let term_x: i64 = mul_fixed(force.force.x, dt);
                    let term_y: i64 = mul_fixed(force.force.y, dt);
                    sum_x = sum_x + term_x as i128;
                    sum_y = sum_y + term_y as i128;
                },
                None => {},
            }
            i = i + 1;
        }
        proof {
            assert(names.take(keys.len() as int) =~= names);
        }
        Vec2 { x: saturate_from(sum_x), y: saturate_from(sum_y) }
    }
}

/// One tick of one entity: damping wears the inactive forces down, the
/// velocity becomes the sum of all forces multiplied by `dt`, shortened to
/// the speed limit, and the position moves by the velocity.
pub fn update_velocity_and_predict(movement: &mut Movement, position: &mut Position, dt: i64)
    requires
        dt >= 0,
    ensures
        final(movement).table() == old(movement).table().map_values(
            |f: ForceView| worn(f, old(movement).damping.scaled_by(dt)),
        ),
        final(movement).damping == old(movement).damping,
        final(movement).velocity == pushed(final(movement).table(), dt as int).limited(
            speed_limit(dt as int),
        ),
        final(movement).velocity.length_squared() <= speed_limit(dt as int) * speed_limit(
            dt as int,
        ),
        final(position).0 == old(position).0.plus(final(movement).velocity),
{
    movement.velocity = Vec2::zero();
    movement.apply_damping(dt);
    let total = movement.sum_of_forces(dt);
    let limit: i64 = mul_fixed(Movement::MAX_VELOCITY, dt);
    movement.velocity = total.clamp_length_max(limit);
    position.0 = position.0.sum(movement.velocity);
}

/// The speed limit of a tick is 256 times its length.
pub proof fn lemma_speed_limit(dt: int)
    requires
        dt >= 0,
    ensures
        speed_limit(dt) <= 256 * dt,
        256 * dt <= i64::MAX ==> speed_limit(dt) == 256 * dt,
{
    assert((256_000_000 * dt) / 1_000_000 == 256 * dt) by (nonlinear_arith)
        requires
            dt >= 0,
    ;
}

/// Force mixing. A request that carries only a flag leaves the vector of the
/// force it names as it was, and one that carries only a vector leaves the
/// flag; what a request carries replaces what the force had. A request that
/// names no existing force creates one, with the zero vector and the
/// inactive flag for what the request leaves out.
pub proof fn lemma_force_mixing(table: Map<Seq<char>, ForceView>, partial: PartialForceView)
    ensures
        applied(table, partial).id == if table.contains_key(partial.id) {
            table[partial.id].id
        } else {
            partial.id
        },
        table.contains_key(partial.id) && partial.force is None ==> applied(table, partial).force
            == table[partial.id].force,
        table.contains_key(partial.id) && partial.active is None ==> applied(
            table,
            partial,
        ).active == table[partial.id].active,
        partial.force is Some ==> applied(table, partial).force == partial.force.unwrap(),
        partial.active is Some ==> applied(table, partial).active == partial.active.unwrap(),
        !table.contains_key(partial.id) && partial.force is None ==> applied(table, partial).force
            == Vec2::origin(),
        !table.contains_key(partial.id) && partial.active is None ==> !applied(
            table,
            partial,
        ).active,
{
}

proof fn lemma_product_decays(v: int, k: int)
    requires
        i64::MIN <= v <= i64::MAX,
        0 <= k,
    ensures
        v >= 0 ==> saturate(product(v, k)) >= 0,
        v <= 0 ==> saturate(product(v, k)) <= 0,
        magnitude(saturate(product(v, k))) * UNIT <= magnitude(v) * k,
        k <= UNIT ==> magnitude(saturate(product(v, k))) <= magnitude(v),
{
    let m = magnitude(v);
    let q = (m * k) / (UNIT as int);
    assert(0 <= q && q * 1_000_000 <= m * k) by (nonlinear_arith)
        requires
            0 <= m,
            0 <= k,
            q == (m * k) / 1_000_000,
    ;
    assert(k <= 1_000_000 ==> q <= m) by (nonlinear_arith)
        requires
            0 <= m,
            0 <= k,
            q == (m * k) / 1_000_000,
    ;
    assert(m == 0 ==> q == 0) by (nonlinear_arith)
        requires
            q == (m * k) / 1_000_000,
    ;
    assert(magnitude(k) == k);
    assert(product(v, k) == q || product(v, k) == -q);
    assert(magnitude(saturate(product(v, k))) <= q);
    assert(magnitude(saturate(product(v, k))) * 1_000_000 <= q * 1_000_000) by (nonlinear_arith)
        requires
            magnitude(saturate(product(v, k))) <= q,
    ;
}

/// Damping. One tick multiplies the vector of an inactive force
/// component-wise by the factor `damping * dt`. Where the factor is not
/// negative, no component changes its sign, and each shrinks at least in the
/// ratio of the factor to one: with a factor below one the vector converges
/// geometrically toward zero.
pub proof fn lemma_damping_decays(f: ForceView, damping: Vec2, dt: i64)
    requires
        !f.active,
        damping.scaled_by(dt).x >= 0,
        damping.scaled_by(dt).y >= 0,
    ensures
        worn(f, damping.scaled_by(dt)).force == f.force.times(damping.scaled_by(dt)),
        worn(f, damping.scaled_by(dt)).id == f.id,
        !worn(f, damping.scaled_by(dt)).active,
        f.force.x >= 0 ==> worn(f, damping.scaled_by(dt)).force.x >= 0,
        f.force.x <= 0 ==> worn(f, damping.scaled_by(dt)).force.x <= 0,
        f.force.y >= 0 ==> worn(f, damping.scaled_by(dt)).force.y >= 0,
        f.force.y <= 0 ==> worn(f, damping.scaled_by(dt)).force.y <= 0,
        magnitude(worn(f, damping.scaled_by(dt)).force.x as int) * UNIT <= magnitude(
            f.force.x as int,
        ) * damping.scaled_by(dt).x,
        magnitude(worn(f, damping.scaled_by(dt)).force.y as int) * UNIT <= magnitude(
            f.force.y as int,
        ) * damping.scaled_by(dt).y,
        damping.scaled_by(dt).x <= UNIT ==> magnitude(
            worn(f, damping.scaled_by(dt)).force.x as int,
        ) <= magnitude(f.force.x as int),
        damping.scaled_by(dt).y <= UNIT ==> magnitude(
            worn(f, damping.scaled_by(dt)).force.y as int,
        ) <= magnitude(f.force.y as int),
{
    let factor = damping.scaled_by(dt);
    lemma_product_decays(f.force.x as int, factor.x as int);
    lemma_product_decays(f.force.y as int, factor.y as int);
}

/// Damping leaves every active force as it is.
pub proof fn lemma_damping_spares_active(f: ForceView, factor: Vec2)
    requires
        f.active,
    ensures
        worn(f, factor) == f,
{
}

impl Default for Movement {
    /// A movement at rest, without forces and without damping.
    fn default() -> (r: Movement)
        ensures
            r.velocity == Vec2::origin(),
            r.damping == Vec2::origin(),
            r.table() == Map::<Seq<char>, ForceView>::empty(),
    {
        Movement::damped(Vec2::zero())
    }
}

} // verus!
