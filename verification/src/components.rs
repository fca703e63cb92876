//! The data attached to a simulated entity: where it is and what shape it has.

use vstd::prelude::*;
use crate::vector::Vec2;

verus! {

/// The authoritative simulation-space location of an entity.
#[derive(Clone, Copy, Debug, PartialEq, Eq, Structural)]
pub struct Position(pub Vec2);

impl Default for Position {
    fn default() -> (r: Position)
        ensures
            r.0 == Vec2::origin(),
    {
        Position(Vec2::zero())
    }
}

/// How a collider answers an overlap.
#[derive(Clone, Copy, Debug, PartialEq, Eq, Structural)]
pub enum ColliderType {
    /// Reports overlaps and is never moved by them.
    Sensor,
    /// Stays in place; others are pushed out of it.
    Static,
    /// Is pushed out of overlaps, in proportion to the other side's mass.
    /// The mass is strictly positive.
    Dynamic(i64),
}

impl ColliderType {
    /// A `Dynamic` collider has a strictly positive mass.
    pub open spec fn valid(self) -> bool {
        match self {
            ColliderType::Dynamic(mass) => mass > 0,
            _ => true,
        }
    }

    pub open spec fn is_static(self) -> bool {
        self is Static
    }
}

impl Default for ColliderType {
    fn default() -> (r: ColliderType)
        ensures
            r == ColliderType::Sensor,
    {
        ColliderType::Sensor
    }
}

/// An axis-aligned rectangle with rounded corners.
///
/// `size` is the full width and height of the bounding rectangle and `radius`
/// the radius of the four corner arcs. The corners fit inside the rectangle:
/// every value of this type satisfies [`Collider::valid`].
#[derive(Clone, Copy, Debug)]
pub struct Collider {
    size: Vec2,
    radius: i64,
    ctype: ColliderType,
}

/// The geometry that every collider has: a corner radius that is not negative
/// and whose diameter fits both sides.
pub open spec fn corners_fit(size: Vec2, radius: i64) -> bool {
    &&& 0 <= radius
    &&& radius * 2 <= size.x
    &&& radius * 2 <= size.y
}

impl Collider {
    /// Raw value of the corner radius of the default collider, a fifth of a unit.
    pub const DEFAULT_RADIUS: i64 = 200_000;

    pub closed spec fn spec_size(&self) -> Vec2 {
        self.size
    }

    pub closed spec fn spec_radius(&self) -> i64 {
        self.radius
    }

    pub closed spec fn spec_ctype(&self) -> ColliderType {
        self.ctype
    }

    /// The corners fit inside the rectangle and a dynamic mass is positive.
    /// This holds of every collider that a program can hold.
    #[verifier::type_invariant]
    pub open spec fn valid(self) -> bool {
        &&& corners_fit(self.spec_size(), self.spec_radius())
        &&& self.spec_ctype().valid()
    }

    /// A rounded rectangle of the given size and corner radius.
    pub fn new(size: Vec2, radius: i64, ctype: ColliderType) -> (r: Collider)
        requires
            corners_fit(size, radius),
            ctype.valid(),
        ensures
            r.valid(),
            r.spec_size() == size,
            r.spec_radius() == radius,
            r.spec_ctype() == ctype,
    {
        Collider { size, radius, ctype }
    }

    /// A plain rectangle: no rounding.
    pub fn rect(size: Vec2, ctype: ColliderType) -> (r: Collider)
        requires
            0 <= size.x,
            0 <= size.y,
            ctype.valid(),
        ensures
            r.valid(),
            r.spec_size() == size,
            r.spec_radius() == 0,
            r.spec_ctype() == ctype,
    {
        Collider { size, radius: 0, ctype }
    }

    /// A circle: a square whose corners meet.
    pub fn circle(radius: i64, ctype: ColliderType) -> (r: Collider)
        requires
            0 <= radius,
            radius * 2 <= i64::MAX,
            ctype.valid(),
        ensures
            r.valid(),
            r.spec_size() == (Vec2 { x: (radius * 2) as i64, y: (radius * 2) as i64 }),
            r.spec_radius() == radius,
            r.spec_ctype() == ctype,
    {
        Collider { size: Vec2::splat(radius * 2), radius, ctype }
    }

    #[verifier::when_used_as_spec(spec_size)]
    pub fn size(&self) -> (r: Vec2)
        ensures
            r == self.spec_size(),
            self.valid(),
    {
        proof {
            use_type_invariant(self);
        }
        self.size
    }

    #[verifier::when_used_as_spec(spec_radius)]
    pub fn radius(&self) -> (r: i64)
        ensures
            r == self.spec_radius(),
            self.valid(),
    {
        proof {
            use_type_invariant(self);
        }
        self.radius
    }

    #[verifier::when_used_as_spec(spec_ctype)]
    pub fn ctype(&self) -> (r: ColliderType)
        ensures
            r == self.spec_ctype(),
            self.valid(),
    {
        proof {
            use_type_invariant(self);
        }
        self.ctype
    }
}

impl Default for Collider {
    /// A unit square with the default corner radius, as a sensor.
    fn default() -> (r: Collider)
        ensures
            r.valid(),
            r.spec_size() == (Vec2 { x: 1_000_000, y: 1_000_000 }),
            r.spec_radius() == Collider::DEFAULT_RADIUS,
            r.spec_ctype() == ColliderType::Sensor,
    {
        Collider::new(Vec2::splat(1_000_000), Collider::DEFAULT_RADIUS, ColliderType::Sensor)
    }
}

/// The side of one world unit on screen, as a scalar and as a vector with
/// that scalar on both axes.
#[derive(Clone, Copy, Debug)]
pub struct TileSize(i64, Vec2);

impl TileSize {
    pub closed spec fn spec_size(&self) -> i64 {
        self.0
    }

    pub closed spec fn spec_vec(&self) -> Vec2 {
        self.1
    }

    pub fn new(size: i64) -> (r: TileSize)
        ensures
            r.spec_size() == size,
            r.spec_vec() == (Vec2 { x: size, y: size }),
    {
        TileSize(size, Vec2::splat(size))
    }

    #[verifier::when_used_as_spec(spec_size)]
    pub fn size(&self) -> (r: i64)
        ensures
            r == self.spec_size(),
    {
        self.0
    }

    #[verifier::when_used_as_spec(spec_vec)]
    pub fn vec(&self) -> (r: Vec2)
        ensures
            r == self.spec_vec(),
    {
        self.1
    }
}

impl Default for TileSize {
    /// Eight units.
    fn default() -> (r: TileSize)
        ensures
            r.spec_size() == 8_000_000,
            r.spec_vec() == (Vec2 { x: 8_000_000, y: 8_000_000 }),
    {
        TileSize::new(8_000_000)
    }
}

} // verus!
