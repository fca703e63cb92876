//! A 2D physics core for axis-aligned rounded-rectangle colliders, in
//! fixed-point arithmetic.

pub mod components;
pub mod force;
pub mod movement;
pub mod narrow_phase;
pub mod resolver;
pub mod scalar;
pub mod snapshot;
pub mod sorting;
pub mod spatial_grid;
pub mod tables;
pub mod vector;

pub use components::{Collider, ColliderType, Position, TileSize};
pub use force::{Force, PartialForce};
pub use movement::{update_velocity_and_predict, Movement};
pub use resolver::{check_collisions_and_resolve, CollisionMessage};
pub use snapshot::Body;
pub use spatial_grid::{update_spatial_hash_grid, SpatialHashGrid};
pub use vector::Vec2;
