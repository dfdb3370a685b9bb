//! A spatial octree over particle positions, anchored to an integer-indexed
//! uniform background grid.
//!
//! Coordinates are exact integers: every position, and every grid plane, is a
//! whole number of units on a scale that the caller chooses. Each bounding box
//! of the tree is a pair of grid points, a box is split at the integer midpoint
//! of its corners, and a particle on a split plane belongs to the positive side.
//!
//! The executable tree is tied to a mathematical model ([`model::TreeModel`]):
//! construction returns exactly the tree that [`model::octree`] defines, and
//! the properties of that definition are proved in [`laws`].

pub mod grid;
pub mod laws;
pub mod mesh;
pub mod model;
pub mod node;
pub mod octant;
pub mod octree;
pub mod storage;
pub mod traversal;
pub mod vector;

pub use grid::{PointIndex, UniformGrid};
pub use mesh::HexMesh3d;
pub use octant::{Direction, Octant, OctantFlags};
pub use node::{can_split, get_split_point, NodeBody, OctreeNode};
pub use octree::Octree;
pub use traversal::DepthFirstIter;
