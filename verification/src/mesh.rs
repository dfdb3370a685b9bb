//! A mesh of hexahedral cells.

use crate::grid::UniformGrid;
use crate::model::{cell_corner, vector_point, TreeModel};
use vstd::prelude::*;

verus! {

/// A mesh of hexahedral cells: the vertices, and for each cell the places of
/// its eight vertices in that list.
#[derive(Clone, Debug)]
pub struct HexMesh3d {
    pub vertices: Vec<nalgebra::Vector3<i64>>,
    pub cells: Vec<[usize; 8]>,
}

impl HexMesh3d {
    /// Whether the mesh shows the boxes of the given nodes, cell by cell: one
    /// cell per node, in order; its eight vertices are the corners of the
    /// node's box, and stand in the list of vertices one after the other,
    /// shared with no other cell.
    pub open spec fn shows(self, nodes: Seq<TreeModel>, grid: UniformGrid) -> bool {
        &&& self.cells@.len() == nodes.len()
        &&& self.vertices@.len() == 8 * nodes.len()
        &&& forall|c: int, j: int|
            0 <= c < nodes.len() && 0 <= j < 8 ==> vector_point(self.vertices@[8 * c + j])
                == #[trigger] cell_corner(grid, nodes[c], j)
        &&& forall|c: int, j: int|
            0 <= c < nodes.len() && 0 <= j < 8 ==> #[trigger] self.cells@[c]@[j] == 8 * c + j
    }
}

} // verus!
