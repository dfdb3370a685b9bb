//! The mathematical model: points, boxes, and the octree as a value.

use crate::grid::UniformGrid;
use crate::octant::{Octant, OctantFlags};
use crate::vector::vector_components;
use vstd::prelude::*;

verus! {

/// A triple of mathematical integers: a grid index or a position, by context.
pub struct Point {
    pub x: int,
    pub y: int,
    pub z: int,
}

impl Point {
    /// The component along `axis` (0, 1 or 2).
    pub open spec fn get(self, axis: int) -> int {
        if axis == 0 {
            self.x
        } else if axis == 1 {
            self.y
        } else {
            self.z
        }
    }

    /// Component-wise difference.
    pub open spec fn minus(self, other: Point) -> Point {
        Point { x: self.x - other.x, y: self.y - other.y, z: self.z - other.z }
    }

    /// Component-wise `<=`.
    pub open spec fn le(self, other: Point) -> bool {
        self.x <= other.x && self.y <= other.y && self.z <= other.z
    }
}

/// The point that a vector denotes.
pub open spec fn vector_point(v: nalgebra::Vector3<i64>) -> Point {
    Point {
        x: vector_components(v)[0] as int,
        y: vector_components(v)[1] as int,
        z: vector_components(v)[2] as int,
    }
}

/// The points that a sequence of vectors denotes, in order.
pub open spec fn vector_points(vs: Seq<nalgebra::Vector3<i64>>) -> Seq<Point> {
    Seq::new(vs.len(), |i: int| vector_point(vs[i]))
}

/// The point that an index triple denotes.
pub open spec fn array_point(a: [i64; 3]) -> Point {
    Point { x: a[0] as int, y: a[1] as int, z: a[2] as int }
}

/// What a node of the tree holds: eight children, or the indices of its
/// particles.
pub enum BodyModel {
    Children { children: Seq<TreeModel> },
    Leaf { particles: Seq<usize> },
}

/// A node of the tree, with all that hangs below it: a box in grid-index
/// space, given by two corners, and a body.
pub struct TreeModel {
    pub lower: Point,
    pub upper: Point,
    pub body: BodyModel,
}

impl TreeModel {
    /// Whether both corners of the node's box are points of the grid.
    pub open spec fn box_in(self, grid: UniformGrid) -> bool {
        grid.contains(self.lower) && grid.contains(self.upper)
    }

    /// Whether the node, if it is a leaf, holds only indices below `n`.
    pub open spec fn particles_below(self, n: int) -> bool {
        self.body matches BodyModel::Leaf { particles } ==> forall|i: int|
            0 <= i < particles.len() ==> particles[i] < n
    }
}

/// The leaf with the given box and particles.
pub open spec fn leaf(lower: Point, upper: Point, particles: Seq<usize>) -> TreeModel {
    TreeModel { lower, upper, body: BodyModel::Leaf { particles } }
}

/// Whether a box can be split: along every axis at least one grid plane lies
/// strictly between its corners.
pub open spec fn can_split_box(lower: Point, upper: Point) -> bool {
    upper.x - lower.x > 1 && upper.y - lower.y > 1 && upper.z - lower.z > 1
}

/// The point at which a box is split: along each axis the midpoint of the
/// corners' indices, rounded down.
pub open spec fn split_point(lower: Point, upper: Point) -> Point {
    Point { x: (lower.x + upper.x) / 2, y: (lower.y + upper.y) / 2, z: (lower.z + upper.z) / 2 }
}

/// The lower corner of the part of a box that lies in the given octant.
pub open spec fn child_lower(lower: Point, upper: Point, octant: Octant) -> Point {
    OctantFlags::spec_from_octant(octant).combine(lower, split_point(lower, upper))
}

/// The upper corner of the part of a box that lies in the given octant.
pub open spec fn child_upper(lower: Point, upper: Point, octant: Octant) -> Point {
    OctantFlags::spec_from_octant(octant).combine(split_point(lower, upper), upper)
}

/// The octant, around the grid point `split`, in which a position lies. A
/// position on a split plane lies on the positive side of it.
pub open spec fn octant_of(grid: UniformGrid, split: Point, position: Point) -> Octant {
    Octant::spec_from_flags(OctantFlags::spec_classify(position.minus(grid.coordinates(split))))
}

/// The test that picks the particles of one octant around `split`.
pub open spec fn in_octant(
    grid: UniformGrid,
    positions: Seq<Point>,
    split: Point,
    octant: Octant,
) -> spec_fn(usize) -> bool {
    |particle: usize| octant_of(grid, split, positions[particle as int]) == octant
}

/// The child that a leaf with the given box and particles gets in one octant:
/// a leaf with that octant's part of the box, and with the particles that lie
/// in the octant, in the order in which the parent held them.
pub open spec fn child(
    grid: UniformGrid,
    positions: Seq<Point>,
    lower: Point,
    upper: Point,
    particles: Seq<usize>,
    octant: Octant,
) -> TreeModel {
    leaf(
        child_lower(lower, upper, octant),
        child_upper(lower, upper, octant),
        particles.filter(in_octant(grid, positions, split_point(lower, upper), octant)),
    )
}

/// The eight children of a leaf, in canonical order.
pub open spec fn children_of(
    grid: UniformGrid,
    positions: Seq<Point>,
    lower: Point,
    upper: Point,
    particles: Seq<usize>,
) -> Seq<TreeModel> {
    Seq::new(
        8,
        |k: int| child(grid, positions, lower, upper, particles, Octant::spec_all()[k]),
    )
}

/// One step of subdivision. A leaf whose box can be split becomes an internal
/// node with the same box and the eight children of the leaf. Any other node
/// stays as it is.
pub open spec fn subdivided(
    node: TreeModel,
    grid: UniformGrid,
    positions: Seq<Point>,
) -> TreeModel {
    match node.body {
        BodyModel::Leaf { particles } if can_split_box(node.lower, node.upper) => TreeModel {
            lower: node.lower,
            upper: node.upper,
            body: BodyModel::Children {
                children: children_of(grid, positions, node.lower, node.upper, particles),
            },
        },
        _ => node,
    }
}

/// Subdivision to the end. A leaf that holds at least `particles_per_cell`
/// particles, and whose box can be split, is subdivided, and so is each of its
/// children in turn. A leaf below the threshold, a leaf whose box cannot be
/// split, and an internal node stay as they are.
pub open spec fn refined(
    node: TreeModel,
    grid: UniformGrid,
    positions: Seq<Point>,
    particles_per_cell: int,
) -> TreeModel
    decreases node.upper.x - node.lower.x,
{
    match node.body {
        BodyModel::Leaf { particles } if particles.len() >= particles_per_cell && can_split_box(
            node.lower,
            node.upper,
        ) => TreeModel {
            lower: node.lower,
            upper: node.upper,
            body: BodyModel::Children {
                children: Seq::new(
                    8,
                    |k: int|
                        if 0 <= k < 8 {
                            refined(
                                child(
                                    grid,
                                    positions,
                                    node.lower,
                                    node.upper,
                                    particles,
                                    Octant::spec_all()[k],
                                ),
                                grid,
                                positions,
                                particles_per_cell,
                            )
                        } else {
                            node
                        },
                ),
            },
        },
        _ => node,
    }
}

/// The particle indices `0, 1, .., n - 1`, in order.
pub open spec fn all_particles(n: nat) -> Seq<usize> {
    Seq::new(n, |i: int| i as usize)
}

/// The leaf from which construction starts: the whole grid, with all particles.
pub open spec fn root_leaf(grid: UniformGrid, n_particles: nat) -> TreeModel {
    leaf(Point { x: 0, y: 0, z: 0 }, grid.max_point(), all_particles(n_particles))
}

/// The octree of the given particles over the given grid.
pub open spec fn octree(
    grid: UniformGrid,
    positions: Seq<Point>,
    particles_per_cell: int,
) -> TreeModel {
    refined(root_leaf(grid, positions.len()), grid, positions, particles_per_cell)
}

/// The nodes of a tree in depth-first order: the node itself, then all that
/// hangs below its first child, then all below its second child, and so on.
pub open spec fn preorder(node: TreeModel) -> Seq<TreeModel>
    decreases node, 0nat,
{
    match node.body {
        BodyModel::Leaf { .. } => seq![node],
        BodyModel::Children { children } => seq![node] + preorder_from(children, 0),
    }
}

/// The nodes of the trees `children[start]`, `children[start + 1]`, .. in
/// depth-first order, one tree after the other.
pub open spec fn preorder_from(children: Seq<TreeModel>, start: int) -> Seq<TreeModel>
    decreases children, children.len() - start,
{
    if 0 <= start < children.len() {
        preorder(children[start]) + preorder_from(children, start + 1)
    } else {
        Seq::empty()
    }
}

/// The nodes that a traversal has still to yield when `stack` holds the trees
/// it has not entered yet, the next one on top (at the end).
pub open spec fn pending(stack: Seq<TreeModel>) -> Seq<TreeModel>
    decreases stack.len(),
{
    if stack.len() == 0 {
        Seq::empty()
    } else {
        preorder(stack.last()) + pending(stack.drop_last())
    }
}

/// The particles of the leaves among `nodes`, leaf after leaf in the order
/// of `nodes`.
pub open spec fn particles_of(nodes: Seq<TreeModel>) -> Seq<usize>
    decreases nodes.len(),
{
    if nodes.len() == 0 {
        Seq::empty()
    } else {
        particles_of(nodes.drop_last()) + match nodes.last().body {
            BodyModel::Leaf { particles } => particles,
            BodyModel::Children { .. } => Seq::empty(),
        }
    }
}

/// The particles of all leaves of a tree, in depth-first order of the leaves.
pub open spec fn leaf_particles(node: TreeModel) -> Seq<usize> {
    particles_of(preorder(node))
}

/// What holds of a single node of an octree over `grid`: its corners are grid
/// points, in order; and if it has children, its box can be split, the
/// children are eight, and the box of each is its octant's part of the box.
pub open spec fn node_well_formed(node: TreeModel, grid: UniformGrid) -> bool {
    &&& node.box_in(grid)
    &&& node.lower.le(node.upper)
    &&& node.body matches BodyModel::Children { children } ==> {
        &&& can_split_box(node.lower, node.upper)
        &&& children.len() == 8
        &&& forall|k: int|
            0 <= k < 8 ==> {
                &&& (#[trigger] children[k]).lower == child_lower(
                    node.lower,
                    node.upper,
                    Octant::spec_all()[k],
                )
                &&& children[k].upper == child_upper(node.lower, node.upper, Octant::spec_all()[k])
            }
    }
}

/// Whether `holds` is true of a node and of every node below it.
pub open spec fn every_node(node: TreeModel, holds: spec_fn(TreeModel) -> bool) -> bool
    decreases node,
{
    &&& holds(node)
    &&& node.body matches BodyModel::Children { children } ==> forall|k: int|
        0 <= k < children.len() ==> every_node(#[trigger] children[k], holds)
}

/// The test for a well-formed node of an octree over `grid`.
pub open spec fn well_formed_node(grid: UniformGrid) -> spec_fn(TreeModel) -> bool {
    |node: TreeModel| node_well_formed(node, grid)
}

/// Whether every node of a tree is well formed.
pub open spec fn well_formed(node: TreeModel, grid: UniformGrid) -> bool {
    every_node(node, well_formed_node(grid))
}

/// The test for a leaf that subdivision leaves alone: it holds fewer
/// particles than the threshold, or its box cannot be split. Internal nodes
/// pass.
pub open spec fn settled_node(particles_per_cell: int) -> spec_fn(TreeModel) -> bool {
    |node: TreeModel|
        node.body matches BodyModel::Leaf { particles } ==> particles.len() < particles_per_cell
            || !can_split_box(node.lower, node.upper)
}

/// Whether a position lies in the box between two grid points, borders
/// included.
pub open spec fn position_in_box(
    grid: UniformGrid,
    position: Point,
    lower: Point,
    upper: Point,
) -> bool {
    grid.coordinates(lower).le(position) && position.le(grid.coordinates(upper))
}

/// The test for a node whose particles lie in its box: every particle of
/// every leaf at or below the node has its position in the box of the node.
pub open spec fn enclosing_node(grid: UniformGrid, positions: Seq<Point>) -> spec_fn(
    TreeModel,
) -> bool {
    |node: TreeModel|
        forall|i: int|
            0 <= i < leaf_particles(node).len() ==> position_in_box(
                grid,
                positions[(#[trigger] leaf_particles(node)[i]) as int],
                node.lower,
                node.upper,
            )
}

/// The test that picks the leaves among nodes.
pub open spec fn is_leaf() -> spec_fn(TreeModel) -> bool {
    |node: TreeModel| node.body is Leaf
}

/// The leaves of a tree, in depth-first order.
pub open spec fn leaves(node: TreeModel) -> Seq<TreeModel> {
    preorder(node).filter(is_leaf())
}

/// The position of a corner of a node's box. The corners count from 0 to 7:
/// first the bottom face, counter-clockwise from the lower corner of the box,
/// then the top face in the same order.
pub open spec fn cell_corner(grid: UniformGrid, node: TreeModel, corner: int) -> Point {
    let low = grid.coordinates(node.lower);
    let up = grid.coordinates(node.upper);
    Point {
        x: if corner == 1 || corner == 2 || corner == 5 || corner == 6 {
            up.x
        } else {
            low.x
        },
        y: if corner == 2 || corner == 3 || corner == 6 || corner == 7 {
            up.y
        } else {
            low.y
        },
        z: if corner >= 4 {
            up.z
        } else {
            low.z
        },
    }
}

/// A traversal starts with the node itself.
pub proof fn lemma_preorder_first(node: TreeModel)
    ensures
        preorder(node).len() >= 1,
        preorder(node)[0] == node,
{
}

/// Putting a tree on the stack puts its nodes before all that was pending.
pub proof fn lemma_pending_push(stack: Seq<TreeModel>, node: TreeModel)
    ensures
        pending(stack.push(node)) == preorder(node) + pending(stack),
{
    assert(stack.push(node).drop_last() =~= stack);
}

/// Filtering one item more either appends that item or changes nothing.
pub proof fn lemma_filter_step<A>(s: Seq<A>, pred: spec_fn(A) -> bool, i: int)
    requires
        0 <= i < s.len(),
    ensures
        s.take(i + 1).filter(pred) == if pred(s[i]) {
            s.take(i).filter(pred).push(s[i])
        } else {
            s.take(i).filter(pred)
        },
{
    reveal(Seq::filter);
    assert(s.take(i + 1).drop_last() =~= s.take(i));
}

/// The split point of a box lies between its corners, so it is a grid point
/// where they are.
pub proof fn lemma_split_point_in_grid(grid: UniformGrid, lower: Point, upper: Point)
    requires
        grid.contains(lower),
        grid.contains(upper),
    ensures
        grid.contains(split_point(lower, upper)),
        forall|octant: Octant| grid.contains(#[trigger] child_lower(lower, upper, octant)),
        forall|octant: Octant| grid.contains(#[trigger] child_upper(lower, upper, octant)),
{
}

/// Each child of a box that can be split is shorter than the box along the
/// x axis, and still has its corners in order.
pub proof fn lemma_child_is_smaller(lower: Point, upper: Point, octant: Octant)
    requires
        can_split_box(lower, upper),
    ensures
        0 < child_upper(lower, upper, octant).x - child_lower(lower, upper, octant).x < upper.x
            - lower.x,
        0 < child_upper(lower, upper, octant).y - child_lower(lower, upper, octant).y < upper.y
            - lower.y,
        0 < child_upper(lower, upper, octant).z - child_lower(lower, upper, octant).z < upper.z
            - lower.z,
{
}

/// What a filter keeps was there before: a child holds only particles of its
/// parent.
pub proof fn lemma_child_particles_below(
    grid: UniformGrid,
    positions: Seq<Point>,
    lower: Point,
    upper: Point,
    particles: Seq<usize>,
    octant: Octant,
    n: int,
)
    requires
        forall|i: int| 0 <= i < particles.len() ==> particles[i] < n,
    ensures
        child(grid, positions, lower, upper, particles, octant).particles_below(n),
{
    let selected = in_octant(grid, positions, split_point(lower, upper), octant);
    let kept = particles.filter(selected);
    assert forall|i: int| 0 <= i < kept.len() implies kept[i] < n by {
        assert(kept.contains(kept[i]));
        particles.lemma_filter_contains_rev(selected, kept[i]);
        let j = choose|j: int| 0 <= j < particles.len() && particles[j] == kept[i];
    }
}

} // verus!
