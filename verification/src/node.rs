//! The nodes of the octree, and their subdivision.

use crate::grid::{PointIndex, UniformGrid};
use crate::model::{
    all_particles, can_split_box, child, child_lower, child_upper, children_of, in_octant, leaf,
    lemma_child_is_smaller, lemma_child_particles_below, lemma_filter_step,
    lemma_split_point_in_grid, refined, root_leaf, split_point, subdivided, vector_point,
    vector_points, BodyModel, TreeModel,
};
use crate::octant::{lemma_flags_round_trip, Octant, OctantFlags};
use crate::storage::{
    particle_seq, storage_as_slice, storage_clone, storage_new, storage_push, ParticleStorage,
};
use vstd::pervasive::unreached;
use vstd::prelude::*;

verus! {

/// A single node of an octree: a leaf that holds particles, or a node with
/// eight children.
#[derive(Debug)]
pub struct OctreeNode {
    lower_corner: PointIndex,
    upper_corner: PointIndex,
    body: NodeBody,
}

/// The body of a node.
#[derive(Debug)]
pub enum NodeBody {
    Children { children: Vec<Box<OctreeNode>> },
    Leaf { particles: ParticleStorage },
}

/// The models of a row of nodes, in order.
pub open spec fn node_models(nodes: Seq<Box<OctreeNode>>) -> Seq<TreeModel> {
    Seq::new(nodes.len(), |i: int| (*nodes[i]).model())
}

impl NodeBody {
    /// What the body holds, as a mathematical value.
    pub closed spec fn model(self) -> BodyModel
        decreases self,
    {
        match self {
            NodeBody::Leaf { particles } => BodyModel::Leaf { particles: particle_seq(particles) },
            NodeBody::Children { children } => BodyModel::Children {
                children: Seq::new(
                    children@.len(),
                    |i: int|
                        if 0 <= i < children@.len() {
                            (*children@[i]).model()
                        } else {
                            arbitrary()
                        },
                ),
            },
        }
    }

    /// The model of a body, by its variant.
    pub proof fn lemma_model(self)
        ensures
            self matches NodeBody::Leaf { particles } ==> self.model() == (BodyModel::Leaf {
                particles: particle_seq(particles),
            }),
            self matches NodeBody::Children { children } ==> self.model() == (BodyModel::Children {
                children: node_models(children@),
            }),
    {
        match self {
            NodeBody::Leaf { .. } => {},
            NodeBody::Children { children } => {
                assert(self.model()->children =~= node_models(children@));
            },
        }
    }

    /// A leaf body with the given particles, in the order given.
    pub fn new_leaf(particles: Vec<usize>) -> (body: Self)
        ensures
            body.model() == (BodyModel::Leaf { particles: particles@ }),
    {
        let mut storage = storage_new();
        let mut i: usize = 0;
        while i < particles.len()
            invariant
                i <= particles.len(),
                particle_seq(storage) == particles@.take(i as int),
            decreases particles.len() - i,
        {
            storage_push(&mut storage, particles[i]);
            assert(particles@.take(i + 1) =~= particles@.take(i as int).push(particles@[i as int]));
            i += 1;
        }
        assert(particles@.take(particles.len() as int) =~= particles@);
        NodeBody::Leaf { particles: storage }
    }

    /// The body of an internal node with the given eight children.
    pub fn new_with_children(children: Vec<Box<OctreeNode>>) -> (body: Self)
        requires
            children.len() == 8,
        ensures
            body.model() == (BodyModel::Children { children: node_models(children@) }),
            body == (NodeBody::Children { children }),
    {
        let body = NodeBody::Children { children };
        proof {
            body.lemma_model();
        }
        body
    }

    /// Whether the body is that of a leaf.
    pub fn is_leaf(&self) -> (r: bool)
        ensures
            r == (self.model() is Leaf),
            r == (*self is Leaf),
    {
        match self {
            NodeBody::Leaf { .. } => true,
            _ => false,
        }
    }

    /// The particles of a leaf; `None` for an internal node.
    pub fn particles(&self) -> (r: Option<&[usize]>)
        ensures
            r is Some <==> self.model() is Leaf,
            r matches Some(particles) ==> self.model() == (BodyModel::Leaf {
                particles: particles@,
            }),
    {
        match self {
            NodeBody::Leaf { particles } => Some(storage_as_slice(particles)),
            _ => None,
        }
    }

    /// The children of an internal node; `None` for a leaf.
    pub fn children(&self) -> (r: Option<&[Box<OctreeNode>]>)
        ensures
            r is Some <==> self.model() is Children,
            r matches Some(children) ==> self.model() == (BodyModel::Children {
                children: node_models(children@),
            }),
            r matches Some(children) ==> *self matches NodeBody::Children { children: own }
                && own@ == children@,
    {
        proof {
            self.lemma_model();
        }
        match self {
            NodeBody::Children { children } => Some(children.as_slice()),
            _ => None,
        }
    }

    /// The children of an internal node, to be changed in place; `None` for a
    /// leaf, which stays as it is.
    pub fn children_mut(&mut self) -> (r: Option<&mut [Box<OctreeNode>]>)
        ensures
            *old(self) is Leaf ==> r is None && *final(self) == *old(self),
            *old(self) matches NodeBody::Children { children } ==> r matches Some(slice)
                && slice@ == children@ && *final(self) is Children
                && final(self)->children@ == final(slice)@,
    {
        match self {
            NodeBody::Children { children } => Some(children.as_mut_slice()),
            _ => None,
        }
    }

    /// A copy of the body and of all that hangs below it.
    fn duplicate(&self) -> (copy: Self)
        ensures
            copy.model() == self.model(),
        decreases self,
    {
        match self {
            NodeBody::Leaf { particles } => NodeBody::Leaf { particles: storage_clone(particles) },
            NodeBody::Children { children } => {
                let mut copies: Vec<Box<OctreeNode>> = Vec::with_capacity(children.len());
                let mut i: usize = 0;
                while i < children.len()
                    invariant
                        i <= children@.len(),
                        copies@.len() == i,
                        forall|j: int|
                            0 <= j < children@.len() ==> decreases_to!(
                                *self => *#[trigger] children@[j]
                            ),
                        forall|j: int|
                            0 <= j < i ==> (*#[trigger] copies@[j]).model()
                                == (*children@[j]).model(),
                    decreases children@.len() - i,
                {
                    copies.push(Box::new(children[i].duplicate()));
                    i += 1;
                }
                let copy = NodeBody::Children { children: copies };
                proof {
                    copy.lemma_model();
                    self.lemma_model();
                    assert(node_models(copies@) =~= node_models(children@));
                }
                copy
            },
        }
    }
}

impl OctreeNode {
    /// The node, with all that hangs below it, as a mathematical value.
    pub closed spec fn model(self) -> TreeModel
        decreases self,
    {
        TreeModel { lower: self.lower_corner@, upper: self.upper_corner@, body: self.body.model() }
    }

    /// The leaf that covers the whole grid and holds the particles
    /// `0, 1, .., n_particles - 1`.
    pub fn new_root(grid: &UniformGrid, n_particles: usize) -> (node: Self)
        ensures
            node.model() == root_leaf(*grid, n_particles as nat),
    {
        let n_points = grid.points_per_dim();
        let min_point = [0, 0, 0];
        let max_point = [n_points[0] - 1, n_points[1] - 1, n_points[2] - 1];

        let lower_corner = grid.get_point(&min_point).unwrap();
        let upper_corner = grid.get_point(&max_point).unwrap();

        let mut particles = storage_new();
        let mut i: usize = 0;
        while i < n_particles
            invariant
                i <= n_particles,
                particle_seq(particles) == all_particles(i as nat),
            decreases n_particles - i,
        {
            storage_push(&mut particles, i);
            assert(all_particles((i + 1) as nat) =~= all_particles(i as nat).push(i));
            i += 1;
        }
        Self { lower_corner, upper_corner, body: NodeBody::Leaf { particles } }
    }

    /// The leaf with the given corners and particles.
    pub fn new_leaf(
        lower_corner: PointIndex,
        upper_corner: PointIndex,
        particles: Vec<usize>,
    ) -> (node: Self)
        ensures
            node.model() == leaf(lower_corner@, upper_corner@, particles@),
    {
        Self { lower_corner, upper_corner, body: NodeBody::new_leaf(particles) }
    }

    /// Splits a leaf into eight children, one per octant around the split
    /// point of its box, and hands each particle to the child in whose octant
    /// it lies. A node whose box cannot be split stays as it is. The node must
    /// be a leaf if its box can be split, its corners must be points of the
    /// grid, and its particles must have positions.
    pub fn subdivide(&mut self, grid: &UniformGrid, particle_positions: &[nalgebra::Vector3<i64>])
        requires
            old(self).model().box_in(*grid),
            old(self).model().body is Leaf || !can_split_box(
                old(self).model().lower,
                old(self).model().upper,
            ),
            old(self).model().particles_below(particle_positions@.len() as int),
        ensures
            final(self).model() == subdivided(
                old(self).model(),
                *grid,
                vector_points(particle_positions@),
            ),
    {
        if !can_split(&self.lower_corner, &self.upper_corner) {
            return ;
        }
        let ghost positions = vector_points(particle_positions@);
        let ghost lower = self.lower_corner@;
        let ghost upper = self.upper_corner@;
        let ghost split = split_point(lower, upper);

        // Convert node body from Leaf to Children
        let new_body = match &self.body {
            NodeBody::Leaf { particles } => {
                proof {
                    lemma_split_point_in_grid(*grid, lower, upper);
                }
                let center = get_split_point(grid, &self.lower_corner, &self.upper_corner).unwrap();
                let split_coordinates = grid.point_coordinates(&center);

                let ghost held = particle_seq(*particles);
                let particles = storage_as_slice(particles);
                let octants = classify_particles(particles, particle_positions, &split_coordinates);

                let all_flags = OctantFlags::all();
                let mut children: Vec<Box<OctreeNode>> = Vec::with_capacity(8);
                let mut k: usize = 0;
                while k < 8
                    invariant
                        k <= 8,
                        children@.len() == k,
                        all_flags@ == OctantFlags::spec_all(),
                        grid.contains(lower),
                        grid.contains(upper),
                        lower == self.lower_corner@,
                        upper == self.upper_corner@,
                        split == center@,
                        split == split_point(lower, upper),
                        vector_point(split_coordinates) == grid.coordinates(split),
                        positions == vector_points(particle_positions@),
                        held == particles@,
                        octants@.len() == particles@.len(),
                        forall|i: int|
                            0 <= i < particles@.len() ==> particles@[i] < particle_positions@.len(),
                        forall|i: int|
                            0 <= i < particles@.len() ==> #[trigger] octants@[i]
                                == OctantFlags::spec_classify(
                                vector_point(particle_positions@[particles@[i] as int]).minus(
                                    vector_point(split_coordinates),
                                ),
                            ),
                        forall|j: int|
                            0 <= j < k ==> (*#[trigger] children@[j]).model() == child(
                                *grid,
                                positions,
                                lower,
                                upper,
                                held,
                                Octant::spec_all()[j],
                            ),
                    decreases 8 - k,
                {
                    let octant_flags = all_flags[k];
                    let ghost octant = Octant::spec_all()[k as int];
                    let ghost selected = in_octant(*grid, positions, split, octant);
                    proof {
                        lemma_split_point_in_grid(*grid, lower, upper);
                        assert(octant_flags == OctantFlags::spec_from_octant(octant));
                        assert(grid.contains(child_lower(lower, upper, octant)));
                        assert(grid.contains(child_upper(lower, upper, octant)));
                        assert forall|i: int| 0 <= i < particles@.len() implies (selected(
                            particles@[i],
                        ) <==> #[trigger] octants@[i] == octant_flags) by {
                            lemma_flags_round_trip(octants@[i], octant);
                        }
                    }
                    let lower_corner = octant_flags.combine_point_index(
                        grid,
                        &self.lower_corner,
                        &center,
                    ).unwrap();
                    let upper_corner = octant_flags.combine_point_index(
                        grid,
                        &center,
                        &self.upper_corner,
                    ).unwrap();

                    let octant_particles = collect_octant(
                        particles,
                        &octants,
                        octant_flags,
                        Ghost(selected),
                    );

                    let child = Box::new(
                        OctreeNode {
                            lower_corner,
                            upper_corner,
                            body: NodeBody::Leaf { particles: octant_particles },
                        },
                    );

                    children.push(child);
                    k += 1;
                }
                proof {
                    assert(node_models(children@) =~= children_of(
                        *grid,
                        positions,
                        lower,
                        upper,
                        held,
                    ));
                }
                NodeBody::new_with_children(children)
            },
            NodeBody::Children { .. } => unreached(),
        };

        self.body = new_body;
    }

    /// Subdivides a leaf that holds at least `particles_per_cell` particles,
    /// and then each of its children in turn, as long as the boxes can be
    /// split. An internal node stays as it is. The corners of the node must be
    /// points of the grid, and its particles must have positions.
    pub fn subdivide_recursively(
        &mut self,
        grid: &UniformGrid,
        particle_positions: &[nalgebra::Vector3<i64>],
        particles_per_cell: usize,
    )
        requires
            old(self).model().box_in(*grid),
            old(self).model().particles_below(particle_positions@.len() as int),
        ensures
            final(self).model() == refined(
                old(self).model(),
                *grid,
                vector_points(particle_positions@),
                particles_per_cell as int,
            ),
        decreases old(self).model().upper.x - old(self).model().lower.x,
    {
        if let Some(particles) = self.body.particles() {
            if particles.len() < particles_per_cell {
                return ;
            }
        } else {
            return ;
        }
        let ghost positions = vector_points(particle_positions@);
        let ghost before = self.model();
        let ghost held = before.body->particles;

        self.subdivide(grid, particle_positions);
        proof {
            self.body.lemma_model();
            let made = children_of(*grid, positions, before.lower, before.upper, held);
            assert(made.len() == 8);
            if let NodeBody::Children { children } = &self.body {
                assert(node_models(children@) == made);
                assert(node_models(children@).len() == children@.len());
                assert forall|j: int| 0 <= j < 8 implies (*#[trigger] children@[j]).model()
                    == child(
                    *grid,
                    positions,
                    before.lower,
                    before.upper,
                    held,
                    Octant::spec_all()[j],
                ) by {
                    assert(node_models(children@)[j] == (*children@[j]).model());
                    assert(made[j] == child(
                        *grid,
                        positions,
                        before.lower,
                        before.upper,
                        held,
                        Octant::spec_all()[j],
                    ));
                }
            }
        }
        match &mut self.body {
            NodeBody::Children { children } => {
                let ghost fresh = children@;
                let mut k: usize = 0;
                while k < 8
                    invariant
                        k <= 8,
                        children@.len() == 8,
                        fresh.len() == 8,
                        before == old(self).model(),
                        before.box_in(*grid),
                        can_split_box(before.lower, before.upper),
                        positions == vector_points(particle_positions@),
                        forall|i: int| 0 <= i < held.len() ==> held[i] < particle_positions@.len(),
                        forall|j: int|
                            0 <= j < 8 ==> (*#[trigger] fresh[j]).model() == child(
                                *grid,
                                positions,
                                before.lower,
                                before.upper,
                                held,
                                Octant::spec_all()[j],
                            ),
                        forall|j: int| k <= j < 8 ==> #[trigger] children@[j] == fresh[j],
                        forall|j: int|
                            0 <= j < k ==> (*#[trigger] children@[j]).model() == refined(
                                (*fresh[j]).model(),
                                *grid,
                                positions,
                                particles_per_cell as int,
                            ),
                    decreases 8 - k,
                {
                    proof {
                        let octant = Octant::spec_all()[k as int];
                        assert((*children@[k as int]).model() == (*fresh[k as int]).model());
                        lemma_split_point_in_grid(*grid, before.lower, before.upper);
                        lemma_child_is_smaller(before.lower, before.upper, octant);
                        lemma_child_particles_below(
                            *grid,
                            positions,
                            before.lower,
                            before.upper,
                            held,
                            octant,
                            particle_positions@.len() as int,
                        );
                        assert(grid.contains(child_lower(before.lower, before.upper, octant)));
                        assert(grid.contains(child_upper(before.lower, before.upper, octant)));
                    }
                    children[k].subdivide_recursively(grid, particle_positions, particles_per_cell);
                    k += 1;
                }
                proof {
                    (NodeBody::Children { children: *children }).lemma_model();
                    assert(refined(before, *grid, positions, particles_per_cell as int).body
                        is Children);
                    assert(node_models(children@) =~= refined(
                        before,
                        *grid,
                        positions,
                        particles_per_cell as int,
                    ).body->children);
                }
            },
            NodeBody::Leaf { .. } => {},
        }
    }

    /// The corner of the node's box with the smallest indices.
    pub fn lower_corner(&self) -> (r: &PointIndex)
        ensures
            r@ == self.model().lower,
    {
        &self.lower_corner
    }

    /// The corner of the node's box with the largest indices.
    pub fn upper_corner(&self) -> (r: &PointIndex)
        ensures
            r@ == self.model().upper,
    {
        &self.upper_corner
    }

    /// Whether the node is a leaf.
    pub fn is_leaf(&self) -> (r: bool)
        ensures
            r == (self.model().body is Leaf),
    {
        self.body.is_leaf()
    }

    /// The particles of a leaf; `None` for an internal node.
    pub fn particles(&self) -> (r: Option<&[usize]>)
        ensures
            r is Some <==> self.model().body is Leaf,
            r matches Some(particles) ==> self.model().body == (BodyModel::Leaf {
                particles: particles@,
            }),
    {
        self.body.particles()
    }

    /// The children of an internal node, in canonical order; `None` for a leaf.
    pub fn children(&self) -> (r: Option<&[Box<OctreeNode>]>)
        ensures
            r is Some <==> self.model().body is Children,
            r matches Some(children) ==> self.model().body == (BodyModel::Children {
                children: node_models(children@),
            }),
    {
        self.body.children()
    }

    /// A copy of the node and of all that hangs below it.
    fn duplicate(&self) -> (copy: Self)
        ensures
            copy.model() == self.model(),
        decreases self,
    {
        OctreeNode {
            lower_corner: self.lower_corner,
            upper_corner: self.upper_corner,
            body: self.body.duplicate(),
        }
    }
}

impl Clone for NodeBody {
    fn clone(&self) -> (copy: Self)
        ensures
            copy.model() == self.model(),
    {
        self.duplicate()
    }
}

impl Clone for OctreeNode {
    fn clone(&self) -> (copy: Self)
        ensures
            copy.model() == self.model(),
    {
        self.duplicate()
    }
}

/// The octant of each particle of a list, around the point with the given
/// coordinates.
fn classify_particles(
    particles: &[usize],
    particle_positions: &[nalgebra::Vector3<i64>],
    split_coordinates: &nalgebra::Vector3<i64>,
) -> (octants: Vec<OctantFlags>)
    requires
        forall|i: int| 0 <= i < particles@.len() ==> particles@[i] < particle_positions@.len(),
    ensures
        octants@.len() == particles@.len(),
        forall|i: int|
            0 <= i < particles@.len() ==> #[trigger] octants@[i] == OctantFlags::spec_classify(
                vector_point(particle_positions@[particles@[i] as int]).minus(
                    vector_point(*split_coordinates),
                ),
            ),
{
    let mut octants: Vec<OctantFlags> = Vec::with_capacity(particles.len());
    let mut i: usize = 0;
    while i < particles.len()
        invariant
            i <= particles@.len(),
            octants@.len() == i,
            forall|j: int| 0 <= j < particles@.len() ==> particles@[j] < particle_positions@.len(),
            forall|j: int|
                0 <= j < i ==> #[trigger] octants@[j] == OctantFlags::spec_classify(
                    vector_point(particle_positions@[particles@[j] as int]).minus(
                        vector_point(*split_coordinates),
                    ),
                ),
        decreases particles@.len() - i,
    {
        let particle = particles[i];
        let position = &particle_positions[particle];
        octants.push(OctantFlags::classify_relative(position, split_coordinates));
        i += 1;
    }
    octants
}

/// The particles of a list whose octant is the given one, in the order of the
/// list. `selected` says in mathematical terms which particles these are.
fn collect_octant(
    particles: &[usize],
    octants: &Vec<OctantFlags>,
    octant_flags: OctantFlags,
    Ghost(selected): Ghost<spec_fn(usize) -> bool>,
) -> (octant_particles: ParticleStorage)
    requires
        octants@.len() == particles@.len(),
        forall|i: int|
            0 <= i < particles@.len() ==> (selected(particles@[i]) <==> #[trigger] octants@[i]
                == octant_flags),
    ensures
        particle_seq(octant_particles) == particles@.filter(selected),
{
    let mut octant_particles = storage_new();
    proof {
        reveal(Seq::filter);
        assert(particles@.take(0).filter(selected) =~= Seq::<usize>::empty());
    }
    let mut i: usize = 0;
    while i < particles.len()
        invariant
            i <= particles@.len(),
            octants@.len() == particles@.len(),
            forall|j: int|
                0 <= j < particles@.len() ==> (selected(particles@[j]) <==> #[trigger] octants@[j]
                    == octant_flags),
            particle_seq(octant_particles) == particles@.take(i as int).filter(selected),
        decreases particles@.len() - i,
    {
        proof {
            lemma_filter_step(particles@, selected, i as int);
            particles@.take(i as int).lemma_filter_len(selected);
        }
        if octants[i] == octant_flags {
            storage_push(&mut octant_particles, particles[i]);
        }
        i += 1;
    }
    assert(particles@.take(particles@.len() as int) =~= particles@);
    octant_particles
}

/// Whether the box between two grid points can be split: along every axis
/// their indices differ by more than one.
pub fn can_split(lower: &PointIndex, upper: &PointIndex) -> (r: bool)
    ensures
        r == can_split_box(lower@, upper@),
{
    let lower = lower.index();
    let upper = upper.index();

    upper[0] - lower[0] > 1 && upper[1] - lower[1] > 1 && upper[2] - lower[2] > 1
}

/// The midpoint of two indices, rounded down.
fn midpoint(lower: i64, upper: i64) -> (r: i64)
    requires
        lower >= 0,
        upper >= 0,
    ensures
        r == (lower + upper) / 2,
{
    let sum: i128 = lower as i128 + upper as i128;
    (sum / 2) as i64
}

/// The grid point at which the box between two grid points is split, looked
/// up in the grid.
pub fn get_split_point(
    grid: &UniformGrid,
    lower: &PointIndex,
    upper: &PointIndex,
) -> (r: Option<PointIndex>)
    ensures
        r is Some <==> grid.contains(split_point(lower@, upper@)),
        r matches Some(p) ==> p@ == split_point(lower@, upper@),
{
    let lower = lower.index();
    let upper = upper.index();

    let mid_indices = [
        midpoint(lower[0], upper[0]),
        midpoint(lower[1], upper[1]),
        midpoint(lower[2], upper[2]),
    ];

    grid.get_point(&mid_indices)
}

} // verus!
