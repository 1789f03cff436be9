//! Ray picking for a 3D scene, in exact arithmetic.
//!
//! Geometry lives on an integer lattice: the host picks the lattice step and
//! rounds world coordinates to it. On the lattice every test is exact: ray
//! parameters, barycentric coordinates and box entry and exit distances are
//! fractions of integers, so hits are compared and ordered without rounding.
//!
//! - `vector`: lattice vectors and their algebra.
//! - `direction`: reduction of a direction to the shortest lattice vector.
//! - `primitives`: rays, triangles, transforms, fractions and hit records.
//! - `narrow`: the Möller–Trumbore ray/triangle test.
//! - `solve`: that test restated over points: it accepts exactly when a
//!   point of the closed triangle lies on the ray's line.
//! - `mesh`: the nearest hit of a ray on a placed triangle mesh.
//! - `broad`: the slab test of a ray against a placed box.
//! - `pick`: ray sources and the picking pass over many meshes.
//! - `lock_on`, `projectile`: consumers of the picking results.
use vstd::prelude::*;

pub mod broad;
pub mod direction;
pub mod lock_on;
pub mod mesh;
pub mod narrow;
pub mod pick;
pub mod primitives;
pub mod projectile;
pub mod solve;
pub mod vector;

verus! {

} // verus!
