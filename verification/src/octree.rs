//! The octree as a whole: construction, traversal, and the debug mesh.

use crate::grid::UniformGrid;
use crate::laws::{
    lemma_every_node_in_preorder, lemma_octree_is_settled, lemma_octree_well_formed,
    lemma_partition_complete,
};
use crate::mesh::HexMesh3d;
use crate::model::{
    cell_corner, every_node, is_leaf, leaf_particles, leaves, lemma_filter_step,
    node_well_formed, octree, preorder, settled_node, vector_point, vector_points, well_formed,
    well_formed_node, TreeModel,
};
use crate::node::OctreeNode;
use crate::traversal::{ref_models, DepthFirstIter};
use crate::vector::{vector_get, vector_new};
use vstd::prelude::*;

verus! {

/// Octree representation of a set of particles.
#[derive(Debug)]
pub struct Octree {
    root: OctreeNode,
}

impl View for Octree {
    type V = TreeModel;

    closed spec fn view(&self) -> TreeModel {
        self.root.model()
    }
}

impl Octree {
    /// Builds the octree of the given particles over the grid: the root covers
    /// the whole grid and holds every particle, and leaves are subdivided as
    /// long as they hold at least `particles_per_cell` particles and their box
    /// can be split.
    pub fn new(
        grid: &UniformGrid,
        particle_positions: &[nalgebra::Vector3<i64>],
        particles_per_cell: usize,
    ) -> (tree: Self)
        ensures
            tree@ == octree(*grid, vector_points(particle_positions@), particles_per_cell as int),
            well_formed(tree@, *grid),
            every_node(tree@, settled_node(particles_per_cell as int)),
            leaf_particles(tree@).no_duplicates(),
            forall|particle: usize| #[trigger]
                leaf_particles(tree@).contains(particle) <==> particle < particle_positions@.len(),
    {
        let mut root = OctreeNode::new_root(grid, particle_positions.len());
        proof {
            use_type_invariant(grid);
            let positions = vector_points(particle_positions@);
            lemma_octree_well_formed(*grid, positions, particles_per_cell as int);
            lemma_octree_is_settled(*grid, positions, particles_per_cell as int);
            lemma_partition_complete(*grid, positions, particles_per_cell as int);
        }
        root.subdivide_recursively(grid, particle_positions, particles_per_cell);
        Self { root }
    }

    /// Constructs a hex mesh that shows the leaves of the octree, one cell per
    /// leaf in depth-first order. Cells share no vertices: a corner at which
    /// several leaves meet stands in the mesh once for each of them.
    pub fn into_hexmesh(&self, grid: &UniformGrid) -> (mesh: HexMesh3d)
        requires
            well_formed(self@, *grid),
        ensures
            mesh.shows(leaves(self@), *grid),
    {
        let mut mesh = HexMesh3d { vertices: Vec::new(), cells: Vec::new() };

        let ghost all = preorder(self@);
        let ghost mut visited: int = 0;
        proof {
            lemma_every_node_in_preorder(self@, well_formed_node(*grid));
            reveal(Seq::filter);
            assert(all.take(0).filter(is_leaf()) =~= Seq::<TreeModel>::empty());
            assert(all.skip(0) =~= all);
        }
        let mut iter = self.depth_first_iter();
        loop
            invariant
                0 <= visited <= all.len(),
                iter.remaining() == all.skip(visited),
                mesh.shows(all.take(visited).filter(is_leaf()), *grid),
                forall|i: int| 0 <= i < all.len() ==> node_well_formed(#[trigger] all[i], *grid),
                all == preorder(self@),
            ensures
                mesh.shows(leaves(self@), *grid),
            decreases iter.remaining().len(),
        {
            let ghost shown = all.take(visited).filter(is_leaf());
            match iter.next() {
                Some(node) => {
                    proof {
                        assert(all.skip(visited)[0] == all[visited]);
                        assert(all.skip(visited).skip(1) =~= all.skip(visited + 1));
                        lemma_filter_step(all, is_leaf(), visited);
                    }
                    if node.is_leaf() {
                        let lower_coords = grid.point_coordinates(node.lower_corner());
                        let upper_coords = grid.point_coordinates(node.upper_corner());
                        let lower_x = vector_get(&lower_coords, 0);
                        let lower_y = vector_get(&lower_coords, 1);
                        let lower_z = vector_get(&lower_coords, 2);
                        let upper_x = vector_get(&upper_coords, 0);
                        let upper_y = vector_get(&upper_coords, 1);
                        let upper_z = vector_get(&upper_coords, 2);

                        let offset = mesh.vertices.len();
                        let ghost vertices_before = mesh.vertices@;
                        let ghost cells_before = mesh.cells@;
                        mesh.vertices.push(lower_coords);
                        mesh.vertices.push(vector_new(upper_x, lower_y, lower_z));
                        mesh.vertices.push(vector_new(upper_x, upper_y, lower_z));
                        mesh.vertices.push(vector_new(lower_x, upper_y, lower_z));
                        mesh.vertices.push(vector_new(lower_x, lower_y, upper_z));
                        mesh.vertices.push(vector_new(upper_x, lower_y, upper_z));
                        mesh.vertices.push(upper_coords);
                        mesh.vertices.push(vector_new(lower_x, upper_y, upper_z));

                        let cell = [
                            offset,
                            offset + 1,
                            offset + 2,
                            offset + 3,
                            offset + 4,
                            offset + 5,
                            offset + 6,
                            offset + 7,
                        ];
                        mesh.cells.push(cell);

                        proof {
                            let now = shown.push(all[visited]);
                            assert(now == all.take(visited + 1).filter(is_leaf()));
                            assert(offset == 8 * shown.len());
                            assert forall|c: int, j: int|
                                0 <= c < now.len() && 0 <= j < 8 implies vector_point(
                                mesh.vertices@[8 * c + j],
                            ) == #[trigger] cell_corner(*grid, now[c], j) by {
                                if c < shown.len() {
                                    assert(now[c] == shown[c]);
                                    assert(mesh.vertices@[8 * c + j] == vertices_before[8 * c + j]);
                                    assert(vector_point(vertices_before[8 * c + j]) == cell_corner(
                                        *grid,
                                        shown[c],
                                        j,
                                    ));
                                }
                            }
                            assert forall|c: int, j: int|
                                0 <= c < now.len() && 0 <= j < 8 implies
                                #[trigger] mesh.cells@[c]@[j] == 8 * c + j by {
                                if c < shown.len() {
                                    assert(mesh.cells@[c] == cells_before[c]);
                                }
                            }
                        }
                    }
                    proof {
                        visited = visited + 1;
                    }
                },
                None => {
                    proof {
                        assert(all.take(visited) =~= all);
                    }
                    break ;
                },
            }
        }

        mesh
    }

    /// A traversal that yields all nodes of the octree in depth-first order.
    pub fn depth_first_iter(&self) -> (iter: DepthFirstIter<'_>)
        ensures
            iter.remaining() == preorder(self@),
    {
        DepthFirstIter::new(&self.root)
    }

    /// All nodes of the octree in depth-first order.
    pub fn depth_first(&self) -> (nodes: Vec<&OctreeNode>)
        ensures
            ref_models(nodes@) == preorder(self@),
    {
        let mut iter = self.depth_first_iter();
        let mut nodes: Vec<&OctreeNode> = Vec::new();
        loop
            invariant
                ref_models(nodes@) + iter.remaining() == preorder(self@),
            ensures
                ref_models(nodes@) == preorder(self@),
            decreases iter.remaining().len(),
        {
            let ghost yielded = ref_models(nodes@);
            let ghost todo = iter.remaining();
            match iter.next() {
                Some(node) => {
                    nodes.push(node);
                    proof {
                        assert(ref_models(nodes@) =~= yielded.push(todo[0]));
                        assert(yielded.push(todo[0]) + todo.skip(1) =~= yielded + todo);
                    }
                },
                None => {
                    assert(yielded + todo =~= yielded);
                    break ;
                },
            }
        }
        nodes
    }

    /// The root of the tree.
    pub fn root(&self) -> (node: &OctreeNode)
        ensures
            node.model() == self@,
    {
        &self.root
    }
}

impl Clone for Octree {
    fn clone(&self) -> (copy: Self)
        ensures
            copy@ == self@,
    {
        Octree { root: self.root.clone() }
    }
}

} // verus!
