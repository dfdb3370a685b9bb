//! What holds of every octree: the properties of the definitions in
//! [`crate::model`], proved.

use crate::grid::{lemma_coordinate_monotonic, UniformGrid};
use crate::model::{
    all_particles, can_split_box, child, child_lower, child_upper, enclosing_node, every_node,
    in_octant, leaf_particles, lemma_child_is_smaller, lemma_filter_step,
    lemma_split_point_in_grid, octant_of, octree, particles_of, position_in_box, preorder,
    preorder_from, refined, root_leaf, settled_node, split_point, subdivided, well_formed,
    well_formed_node, BodyModel, Point, TreeModel,
};
use crate::octant::{lemma_flags_round_trip, Octant, OctantFlags};
use vstd::multiset::Multiset;
use vstd::prelude::*;
use vstd::seq_lib::{lemma_multiset_commutative, to_multiset_build};

verus! {

/// The canonical order is stable: the octant at place `i` has index `i`, the
/// flags at place `i` are those of that octant, and turning the octant into
/// flags and back gives the same octant.
pub proof fn lemma_canonical_order(i: int)
    requires
        0 <= i < 8,
    ensures
        Octant::spec_all()[i].spec_index() == i,
        OctantFlags::spec_all()[i] == OctantFlags::spec_from_octant(Octant::spec_all()[i]),
        Octant::spec_from_flags(OctantFlags::spec_all()[i]) == Octant::spec_all()[i],
{
}

/// Every octant stands at the place of its index, and at no other.
pub proof fn lemma_octant_index(octant: Octant)
    ensures
        0 <= octant.spec_index() < 8,
        Octant::spec_all()[octant.spec_index()] == octant,
        forall|i: int| 0 <= i < 8 && Octant::spec_all()[i] == octant ==> i == octant.spec_index(),
{
}

/// A displacement of zero along an axis counts as positive along that axis,
/// and so does every displacement above zero; one below zero is negative.
pub proof fn lemma_classify_tie_break(displacement: Point)
    ensures
        displacement.x == 0 ==> OctantFlags::spec_classify(displacement).x_axis is Positive,
        displacement.y == 0 ==> OctantFlags::spec_classify(displacement).y_axis is Positive,
        displacement.z == 0 ==> OctantFlags::spec_classify(displacement).z_axis is Positive,
        OctantFlags::spec_classify(displacement).x_axis is Positive <==> displacement.x >= 0,
        OctantFlags::spec_classify(displacement).y_axis is Positive <==> displacement.y >= 0,
        OctantFlags::spec_classify(displacement).z_axis is Positive <==> displacement.z >= 0,
{
}

/// A particle that lies exactly on a split plane belongs to an octant on the
/// positive side of that plane.
pub proof fn lemma_on_split_plane(grid: UniformGrid, split: Point, position: Point)
    ensures
        position.x == grid.coordinates(split).x ==> OctantFlags::spec_from_octant(
            octant_of(grid, split, position),
        ).x_axis is Positive,
        position.y == grid.coordinates(split).y ==> OctantFlags::spec_from_octant(
            octant_of(grid, split, position),
        ).y_axis is Positive,
        position.z == grid.coordinates(split).z ==> OctantFlags::spec_from_octant(
            octant_of(grid, split, position),
        ).z_axis is Positive,
{
    let flags = OctantFlags::spec_classify(position.minus(grid.coordinates(split)));
    lemma_flags_round_trip(flags, Octant::NegNegNeg);
}

/// Whether `p` lies in the box between `lower` and `upper`, borders included.
pub open spec fn in_box(p: Point, lower: Point, upper: Point) -> bool {
    lower.le(p) && p.le(upper)
}

/// Whether two boxes share no interior: along some axis one of them ends
/// where, or before, the other begins.
pub open spec fn interiors_disjoint(
    lower_a: Point,
    upper_a: Point,
    lower_b: Point,
    upper_b: Point,
) -> bool {
    ||| upper_a.x <= lower_b.x || upper_b.x <= lower_a.x
    ||| upper_a.y <= lower_b.y || upper_b.y <= lower_a.y
    ||| upper_a.z <= lower_b.z || upper_b.z <= lower_a.z
}

/// The eight children of a box that can be split tile it. Each child is a box
/// inside the parent, with room between its corners, and shorter than the
/// parent along every axis; every point of the parent lies in a child; and no
/// two children share any interior.
pub proof fn lemma_children_tile(lower: Point, upper: Point)
    requires
        can_split_box(lower, upper),
    ensures
        forall|octant: Octant|
            {
                let child_low = #[trigger] child_lower(lower, upper, octant);
                let child_up = child_upper(lower, upper, octant);
                &&& in_box(child_low, lower, upper)
                &&& in_box(child_up, lower, upper)
                &&& 0 < child_up.x - child_low.x < upper.x - lower.x
                &&& 0 < child_up.y - child_low.y < upper.y - lower.y
                &&& 0 < child_up.z - child_low.z < upper.z - lower.z
            },
        forall|p: Point|
            in_box(p, lower, upper) ==> exists|octant: Octant|
                in_box(
                    p,
                    #[trigger] child_lower(lower, upper, octant),
                    child_upper(lower, upper, octant),
                ),
        forall|a: Octant, b: Octant|
            a != b ==> interiors_disjoint(
                #[trigger] child_lower(lower, upper, a),
                child_upper(lower, upper, a),
                #[trigger] child_lower(lower, upper, b),
                child_upper(lower, upper, b),
            ),
{
    let split = split_point(lower, upper);
    assert forall|p: Point| in_box(p, lower, upper) implies exists|octant: Octant|
        in_box(
            p,
            #[trigger] child_lower(lower, upper, octant),
            child_upper(lower, upper, octant),
        ) by {
        let flags = OctantFlags::spec_from_bool(p.x >= split.x, p.y >= split.y, p.z >= split.z);
        let octant = Octant::spec_from_flags(flags);
        lemma_flags_round_trip(flags, octant);
        assert(in_box(p, child_lower(lower, upper, octant), child_upper(lower, upper, octant)));
    }
    assert forall|a: Octant, b: Octant| a != b implies interiors_disjoint(
        #[trigger] child_lower(lower, upper, a),
        child_upper(lower, upper, a),
        #[trigger] child_lower(lower, upper, b),
        child_upper(lower, upper, b),
    ) by {
        let fa = OctantFlags::spec_from_octant(a);
        let fb = OctantFlags::spec_from_octant(b);
        lemma_flags_round_trip(fa, a);
        lemma_flags_round_trip(fb, b);
        let la = child_lower(lower, upper, a);
        let ua = child_upper(lower, upper, a);
        let lb = child_lower(lower, upper, b);
        let ub = child_upper(lower, upper, b);
        if fa.x_axis != fb.x_axis {
            assert(ua.x <= lb.x || ub.x <= la.x);
        } else if fa.y_axis != fb.y_axis {
            assert(ua.y <= lb.y || ub.y <= la.y);
        } else {
            assert(fa.z_axis != fb.z_axis);
            assert(ua.z <= lb.z || ub.z <= la.z);
        }
    }
}

/// The children tile the box of their parent in space as well. The box of each
/// child, taken at the positions of its corners, lies inside that of the
/// parent and has a positive extent along every axis; every position in the
/// box of the parent lies in the box of the child of its octant; and no two
/// children share any interior.
pub proof fn lemma_children_tile_in_space(grid: UniformGrid, lower: Point, upper: Point)
    requires
        grid.wf(),
        can_split_box(lower, upper),
    ensures
        forall|octant: Octant|
            {
                let child_low = grid.coordinates(#[trigger] child_lower(lower, upper, octant));
                let child_up = grid.coordinates(child_upper(lower, upper, octant));
                &&& in_box(child_low, grid.coordinates(lower), grid.coordinates(upper))
                &&& in_box(child_up, grid.coordinates(lower), grid.coordinates(upper))
                &&& child_low.x < child_up.x
                &&& child_low.y < child_up.y
                &&& child_low.z < child_up.z
            },
        forall|position: Point| #[trigger]
            position_in_box(grid, position, lower, upper) ==> position_in_box(
                grid,
                position,
                child_lower(
                    lower,
                    upper,
                    octant_of(grid, split_point(lower, upper), position),
                ),
                child_upper(
                    lower,
                    upper,
                    octant_of(grid, split_point(lower, upper), position),
                ),
            ),
        forall|a: Octant, b: Octant|
            a != b ==> interiors_disjoint(
                grid.coordinates(#[trigger] child_lower(lower, upper, a)),
                grid.coordinates(child_upper(lower, upper, a)),
                grid.coordinates(#[trigger] child_lower(lower, upper, b)),
                grid.coordinates(child_upper(lower, upper, b)),
            ),
{
    let split = split_point(lower, upper);
    lemma_coordinate_monotonic(grid, 0, lower.x, split.x);
    lemma_coordinate_monotonic(grid, 0, split.x, upper.x);
    lemma_coordinate_monotonic(grid, 0, lower.x, upper.x);
    lemma_coordinate_monotonic(grid, 1, lower.y, split.y);
    lemma_coordinate_monotonic(grid, 1, split.y, upper.y);
    lemma_coordinate_monotonic(grid, 1, lower.y, upper.y);
    lemma_coordinate_monotonic(grid, 2, lower.z, split.z);
    lemma_coordinate_monotonic(grid, 2, split.z, upper.z);
    lemma_coordinate_monotonic(grid, 2, lower.z, upper.z);
    assert forall|position: Point| #[trigger]
        position_in_box(grid, position, lower, upper) implies position_in_box(
        grid,
        position,
        child_lower(lower, upper, octant_of(grid, split, position)),
        child_upper(lower, upper, octant_of(grid, split, position)),
    ) by {
        let flags = OctantFlags::spec_classify(position.minus(grid.coordinates(split)));
        lemma_flags_round_trip(flags, Octant::NegNegNeg);
    }
    assert forall|a: Octant, b: Octant| a != b implies interiors_disjoint(
        grid.coordinates(#[trigger] child_lower(lower, upper, a)),
        grid.coordinates(child_upper(lower, upper, a)),
        grid.coordinates(#[trigger] child_lower(lower, upper, b)),
        grid.coordinates(child_upper(lower, upper, b)),
    ) by {
        let fa = OctantFlags::spec_from_octant(a);
        let fb = OctantFlags::spec_from_octant(b);
        lemma_flags_round_trip(fa, a);
        lemma_flags_round_trip(fb, b);
        if fa.x_axis != fb.x_axis {
        } else if fa.y_axis != fb.y_axis {
        } else {
            assert(fa.z_axis != fb.z_axis);
        }
    }
}

/// A leaf whose box cannot be split stays a leaf, however many particles it
/// holds: neither one step of subdivision nor subdivision to the end changes it.
pub proof fn lemma_leaf_floor(
    node: TreeModel,
    grid: UniformGrid,
    positions: Seq<Point>,
    particles_per_cell: int,
)
    requires
        node.upper.x - node.lower.x <= 1 || node.upper.y - node.lower.y <= 1 || node.upper.z
            - node.lower.z <= 1,
    ensures
        subdivided(node, grid, positions) == node,
        refined(node, grid, positions, particles_per_cell) == node,
{
}

/// A leaf that holds fewer particles than the threshold is not subdivided.
pub proof fn lemma_below_threshold(
    node: TreeModel,
    grid: UniformGrid,
    positions: Seq<Point>,
    particles_per_cell: int,
)
    requires
        node.body matches BodyModel::Leaf { particles } && particles.len() < particles_per_cell,
    ensures
        refined(node, grid, positions, particles_per_cell) == node,
{
}

/// Subdivision to the end keeps the box of the node, and every node of the
/// result is well formed.
pub proof fn lemma_refined_well_formed(
    node: TreeModel,
    grid: UniformGrid,
    positions: Seq<Point>,
    particles_per_cell: int,
)
    requires
        node.body is Leaf,
        node.box_in(grid),
        node.lower.le(node.upper),
    ensures
        refined(node, grid, positions, particles_per_cell).lower == node.lower,
        refined(node, grid, positions, particles_per_cell).upper == node.upper,
        well_formed(refined(node, grid, positions, particles_per_cell), grid),
    decreases node.upper.x - node.lower.x,
{
    let result = refined(node, grid, positions, particles_per_cell);
    let particles = node.body->particles;
    if particles.len() >= particles_per_cell && can_split_box(node.lower, node.upper) {
        lemma_split_point_in_grid(grid, node.lower, node.upper);
        let children = result.body->children;
        assert forall|k: int| 0 <= k < 8 implies {
            &&& (#[trigger] children[k]).lower == child_lower(
                node.lower,
                node.upper,
                Octant::spec_all()[k],
            )
            &&& children[k].upper == child_upper(node.lower, node.upper, Octant::spec_all()[k])
            &&& every_node(children[k], well_formed_node(grid))
        } by {
            let octant = Octant::spec_all()[k];
            let fresh = child(grid, positions, node.lower, node.upper, particles, octant);
            lemma_child_is_smaller(node.lower, node.upper, octant);
            assert(grid.contains(child_lower(node.lower, node.upper, octant)));
            assert(grid.contains(child_upper(node.lower, node.upper, octant)));
            lemma_refined_well_formed(fresh, grid, positions, particles_per_cell);
        }
    }
}

/// Every node of an octree is well formed: its box lies in the grid, an
/// internal node has a box that can be split and eight children, and the
/// children's boxes are the eight parts into which the split point cuts the
/// box of their parent.
pub proof fn lemma_octree_well_formed(
    grid: UniformGrid,
    positions: Seq<Point>,
    particles_per_cell: int,
)
    requires
        grid.wf(),
    ensures
        well_formed(octree(grid, positions, particles_per_cell), grid),
        octree(grid, positions, particles_per_cell).lower == (Point { x: 0, y: 0, z: 0 }),
        octree(grid, positions, particles_per_cell).upper == grid.max_point(),
{
    lemma_refined_well_formed(
        root_leaf(grid, positions.len()),
        grid,
        positions,
        particles_per_cell,
    );
}

/// The particles of two rows of nodes, one after the other, are those of
/// the first row followed by those of the second.
pub proof fn lemma_particles_of_concat(a: Seq<TreeModel>, b: Seq<TreeModel>)
    ensures
        particles_of(a + b) == particles_of(a) + particles_of(b),
    decreases b.len(),
{
    if b.len() == 0 {
        assert(a + b =~= a);
        assert(particles_of(a) + particles_of(b) =~= particles_of(a));
    } else {
        assert((a + b).drop_last() =~= a + b.drop_last());
        lemma_particles_of_concat(a, b.drop_last());
        let tail = match b.last().body {
            BodyModel::Leaf { particles } => particles,
            BodyModel::Children { .. } => Seq::empty(),
        };
        assert((particles_of(a) + particles_of(b.drop_last())) + tail =~= particles_of(a) + (
        particles_of(b.drop_last()) + tail));
    }
}

/// A node alone contributes its particles if it is a leaf, and nothing if not.
pub proof fn lemma_particles_of_single(node: TreeModel)
    ensures
        particles_of(seq![node]) == match node.body {
            BodyModel::Leaf { particles } => particles,
            BodyModel::Children { .. } => Seq::empty(),
        },
{
    let nothing = Seq::<TreeModel>::empty();
    assert(seq![node].drop_last() =~= nothing);
    assert(particles_of(nothing) =~= Seq::<usize>::empty());
    let own = match node.body {
        BodyModel::Leaf { particles } => particles,
        BodyModel::Children { .. } => Seq::empty(),
    };
    assert(particles_of(nothing) + own =~= own);
}

/// The particles that the octants `start`, `start + 1`, .. get of a list, as
/// one bag.
spec fn octant_bags(
    grid: UniformGrid,
    positions: Seq<Point>,
    split: Point,
    particles: Seq<usize>,
    start: int,
) -> Multiset<usize>
    decreases 8 - start,
{
    if 0 <= start < 8 {
        particles.filter(
            in_octant(grid, positions, split, Octant::spec_all()[start]),
        ).to_multiset().add(octant_bags(grid, positions, split, particles, start + 1))
    } else {
        Multiset::empty()
    }
}

proof fn lemma_octant_bags_empty(grid: UniformGrid, positions: Seq<Point>, split: Point, start: int)
    ensures
        octant_bags(grid, positions, split, Seq::empty(), start) =~= Multiset::empty(),
    decreases 8 - start,
{
    if 0 <= start < 8 {
        reveal(Seq::filter);
        lemma_octant_bags_empty(grid, positions, split, start + 1);
        let nothing = Seq::<usize>::empty();
        let kept = nothing.filter(in_octant(grid, positions, split, Octant::spec_all()[start]));
        assert(kept =~= nothing);
        nothing.to_multiset_ensures();
    }
}

proof fn lemma_octant_bags_push(
    grid: UniformGrid,
    positions: Seq<Point>,
    split: Point,
    particles: Seq<usize>,
    particle: usize,
    start: int,
)
    requires
        0 <= start <= 8,
    ensures
        octant_bags(grid, positions, split, particles.push(particle), start) =~= if octant_of(
            grid,
            split,
            positions[particle as int],
        ).spec_index() >= start {
            octant_bags(grid, positions, split, particles, start).insert(particle)
        } else {
            octant_bags(grid, positions, split, particles, start)
        },
    decreases 8 - start,
{
    if start < 8 {
        lemma_octant_bags_push(grid, positions, split, particles, particle, start + 1);
        let selected = in_octant(grid, positions, split, Octant::spec_all()[start]);
        let more = particles.push(particle);
        lemma_filter_step(more, selected, particles.len() as int);
        assert(more.take(particles.len() as int + 1) =~= more);
        assert(more.take(particles.len() as int) =~= particles);
        to_multiset_build(particles.filter(selected), particle);
        lemma_octant_index(octant_of(grid, split, positions[particle as int]));
    }
}

/// The eight octants share out a list of particles: each particle goes to
/// exactly one of them.
proof fn lemma_octant_bags_partition(
    grid: UniformGrid,
    positions: Seq<Point>,
    split: Point,
    particles: Seq<usize>,
)
    ensures
        octant_bags(grid, positions, split, particles, 0) =~= particles.to_multiset(),
    decreases particles.len(),
{
    if particles.len() == 0 {
        assert(particles =~= Seq::<usize>::empty());
        lemma_octant_bags_empty(grid, positions, split, 0);
        particles.to_multiset_ensures();
    } else {
        let rest = particles.drop_last();
        let last = particles.last();
        assert(rest.push(last) =~= particles);
        lemma_octant_bags_partition(grid, positions, split, rest);
        lemma_octant_bags_push(grid, positions, split, rest, last, 0);
        lemma_octant_index(octant_of(grid, split, positions[last as int]));
        to_multiset_build(rest, last);
    }
}

/// Subdivision to the end neither drops a particle nor holds one twice: the
/// leaves of the result hold, all together, just the particles of the leaf
/// that was subdivided, each as often as that leaf held it.
pub proof fn lemma_refined_keeps_particles(
    node: TreeModel,
    grid: UniformGrid,
    positions: Seq<Point>,
    particles_per_cell: int,
)
    requires
        node.body is Leaf,
    ensures
        leaf_particles(refined(node, grid, positions, particles_per_cell)).to_multiset()
            =~= node.body->particles.to_multiset(),
    decreases node.upper.x - node.lower.x, 10int,
{
    let result = refined(node, grid, positions, particles_per_cell);
    let particles = node.body->particles;
    if particles.len() >= particles_per_cell && can_split_box(node.lower, node.upper) {
        let children = result.body->children;
        lemma_children_keep_particles(node, grid, positions, particles_per_cell, 0);
        lemma_particles_of_concat(seq![result], preorder_from(children, 0));
        lemma_particles_of_single(result);
        assert(leaf_particles(result) =~= particles_of(preorder_from(children, 0)));
        lemma_octant_bags_partition(
            grid,
            positions,
            split_point(node.lower, node.upper),
            particles,
        );
    } else {
        lemma_particles_of_single(node);
    }
}

proof fn lemma_children_keep_particles(
    node: TreeModel,
    grid: UniformGrid,
    positions: Seq<Point>,
    particles_per_cell: int,
    start: int,
)
    requires
        node.body matches BodyModel::Leaf { particles } && particles.len() >= particles_per_cell,
        can_split_box(node.lower, node.upper),
        0 <= start <= 8,
    ensures
        particles_of(
            preorder_from(
                refined(node, grid, positions, particles_per_cell).body->children,
                start,
            ),
        ).to_multiset() =~= octant_bags(
            grid,
            positions,
            split_point(node.lower, node.upper),
            node.body->particles,
            start,
        ),
    decreases node.upper.x - node.lower.x, 8 - start,
{
    let children = refined(node, grid, positions, particles_per_cell).body->children;
    if start < 8 {
        let octant = Octant::spec_all()[start];
        let fresh = child(grid, positions, node.lower, node.upper, node.body->particles, octant);
        lemma_child_is_smaller(node.lower, node.upper, octant);
        assert(children[start] == refined(fresh, grid, positions, particles_per_cell));
        lemma_refined_keeps_particles(fresh, grid, positions, particles_per_cell);
        lemma_children_keep_particles(node, grid, positions, particles_per_cell, start + 1);
        lemma_particles_of_concat(preorder(children[start]), preorder_from(children, start + 1));
        lemma_multiset_commutative(
            particles_of(preorder(children[start])),
            particles_of(preorder_from(children, start + 1)),
        );
    } else {
        assert(preorder_from(children, start) =~= Seq::<TreeModel>::empty());
        assert(particles_of(Seq::<TreeModel>::empty()) =~= Seq::<usize>::empty());
        Seq::<usize>::empty().to_multiset_ensures();
    }
}

/// The leaves of an octree share out the particles: every index below the
/// number of particles stands in the leaves exactly once, and nothing else
/// stands there.
pub proof fn lemma_partition_complete(
    grid: UniformGrid,
    positions: Seq<Point>,
    particles_per_cell: int,
)
    requires
        positions.len() <= usize::MAX,
    ensures
        ({
            let found = leaf_particles(octree(grid, positions, particles_per_cell));
            &&& found.to_multiset() =~= all_particles(positions.len()).to_multiset()
            &&& found.len() == positions.len()
            &&& found.no_duplicates()
            &&& forall|particle: usize| #[trigger]
                found.contains(particle) <==> particle < positions.len()
        }),
{
    let n = positions.len();
    let all = all_particles(n);
    let found = leaf_particles(octree(grid, positions, particles_per_cell));
    lemma_refined_keeps_particles(root_leaf(grid, n), grid, positions, particles_per_cell);
    found.to_multiset_ensures();
    all.to_multiset_ensures();
    assert(all.no_duplicates());
    all.lemma_multiset_has_no_duplicates();
    found.lemma_multiset_has_no_duplicates_conv();
    assert forall|particle: usize| #[trigger]
        found.contains(particle) <==> particle < n by {
        if particle < n {
            assert(all[particle as int] == particle);
            assert(all.contains(particle));
            assert(all.to_multiset().count(particle) > 0);
            assert(found.to_multiset().count(particle) > 0);
        }
        if found.contains(particle) {
            assert(found.to_multiset().count(particle) > 0);
            assert(all.to_multiset().count(particle) > 0);
            assert(all.contains(particle));
            let i = choose|i: int| 0 <= i < all.len() && all[i] == particle;
        }
    }
}

/// The leaves of a subdivided leaf hold only particles that the leaf held.
pub proof fn lemma_refined_particles_were_held(
    node: TreeModel,
    grid: UniformGrid,
    positions: Seq<Point>,
    particles_per_cell: int,
    particle: usize,
)
    requires
        node.body is Leaf,
    ensures
        leaf_particles(refined(node, grid, positions, particles_per_cell)).contains(particle)
            <==> node.body->particles.contains(particle),
{
    let found = leaf_particles(refined(node, grid, positions, particles_per_cell));
    let held = node.body->particles;
    lemma_refined_keeps_particles(node, grid, positions, particles_per_cell);
    found.to_multiset_ensures();
    held.to_multiset_ensures();
    assert(found.contains(particle) <==> found.to_multiset().count(particle) > 0);
    assert(held.contains(particle) <==> held.to_multiset().count(particle) > 0);
}

/// A particle of a child lies in the box of the child, if it lies in the box
/// of the parent: the octant of the child says on which side of each split
/// plane the particle is.
proof fn lemma_child_encloses(
    node: TreeModel,
    grid: UniformGrid,
    positions: Seq<Point>,
    octant: Octant,
)
    requires
        node.body is Leaf,
        enclosing_node(grid, positions)(node),
    ensures
        enclosing_node(grid, positions)(
            child(grid, positions, node.lower, node.upper, node.body->particles, octant),
        ),
{
    let particles = node.body->particles;
    let fresh = child(grid, positions, node.lower, node.upper, particles, octant);
    let selected = in_octant(grid, positions, split_point(node.lower, node.upper), octant);
    let kept = particles.filter(selected);
    lemma_particles_of_single(node);
    lemma_particles_of_single(fresh);
    assert(preorder(node) =~= seq![node]);
    assert(preorder(fresh) =~= seq![fresh]);
    assert forall|i: int| 0 <= i < leaf_particles(fresh).len() implies position_in_box(
        grid,
        positions[(#[trigger] leaf_particles(fresh)[i]) as int],
        fresh.lower,
        fresh.upper,
    ) by {
        let particle = kept[i];
        particles.lemma_filter_pred(selected, i);
        assert(kept.contains(particle));
        particles.lemma_filter_contains_rev(selected, particle);
        let j = choose|j: int| 0 <= j < particles.len() && particles[j] == particle;
        assert(leaf_particles(node)[j] == particle);
        let flags = OctantFlags::spec_classify(
            positions[particle as int].minus(
                grid.coordinates(split_point(node.lower, node.upper)),
            ),
        );
        lemma_flags_round_trip(flags, octant);
    }
}

/// Subdivision to the end keeps every particle in its box: if the particles
/// of a leaf lie in the box of the leaf, then below every node of the result
/// lie only particles whose positions are in the box of that node.
pub proof fn lemma_refined_encloses(
    node: TreeModel,
    grid: UniformGrid,
    positions: Seq<Point>,
    particles_per_cell: int,
)
    requires
        node.body is Leaf,
        enclosing_node(grid, positions)(node),
    ensures
        every_node(
            refined(node, grid, positions, particles_per_cell),
            enclosing_node(grid, positions),
        ),
    decreases node.upper.x - node.lower.x,
{
    let result = refined(node, grid, positions, particles_per_cell);
    let particles = node.body->particles;
    if particles.len() >= particles_per_cell && can_split_box(node.lower, node.upper) {
        let children = result.body->children;
        lemma_particles_of_single(node);
        assert(preorder(node) =~= seq![node]);
        assert forall|i: int| 0 <= i < leaf_particles(result).len() implies position_in_box(
            grid,
            positions[(#[trigger] leaf_particles(result)[i]) as int],
            result.lower,
            result.upper,
        ) by {
            let particle = leaf_particles(result)[i];
            assert(leaf_particles(result).contains(particle));
            lemma_refined_particles_were_held(node, grid, positions, particles_per_cell, particle);
            let j = choose|j: int| 0 <= j < particles.len() && particles[j] == particle;
            assert(leaf_particles(node)[j] == particle);
        }
        assert forall|k: int| 0 <= k < 8 implies every_node(
            #[trigger] children[k],
            enclosing_node(grid, positions),
        ) by {
            let octant = Octant::spec_all()[k];
            let fresh = child(grid, positions, node.lower, node.upper, particles, octant);
            lemma_child_is_smaller(node.lower, node.upper, octant);
            lemma_child_encloses(node, grid, positions, octant);
            lemma_refined_encloses(fresh, grid, positions, particles_per_cell);
        }
    }
}

/// If every particle lies in the box of the grid, then every leaf of the
/// octree holds only particles that lie in the box of the leaf, and the same
/// is true of all the particles below an internal node.
pub proof fn lemma_octree_encloses(
    grid: UniformGrid,
    positions: Seq<Point>,
    particles_per_cell: int,
)
    requires
        positions.len() <= usize::MAX,
        forall|i: int|
            0 <= i < positions.len() ==> position_in_box(
                grid,
                #[trigger] positions[i],
                Point { x: 0, y: 0, z: 0 },
                grid.max_point(),
            ),
    ensures
        every_node(
            octree(grid, positions, particles_per_cell),
            enclosing_node(grid, positions),
        ),
{
    let root = root_leaf(grid, positions.len());
    lemma_particles_of_single(root);
    assert(preorder(root) =~= seq![root]);
    lemma_refined_encloses(root, grid, positions, particles_per_cell);
}

/// What holds of every node of a tree holds of every node that a traversal
/// of the tree yields.
pub proof fn lemma_every_node_in_preorder(node: TreeModel, holds: spec_fn(TreeModel) -> bool)
    requires
        every_node(node, holds),
    ensures
        forall|i: int| 0 <= i < preorder(node).len() ==> holds(#[trigger] preorder(node)[i]),
    decreases node, 0nat,
{
    match node.body {
        BodyModel::Leaf { .. } => {
            assert(preorder(node) =~= seq![node]);
        },
        BodyModel::Children { children } => {
            lemma_every_node_in_preorder_from(children, 0, holds);
            let below = preorder_from(children, 0);
            assert forall|i: int| 0 <= i < preorder(node).len() implies holds(
                #[trigger] preorder(node)[i],
            ) by {
                if i > 0 {
                    assert(preorder(node)[i] == below[i - 1]);
                }
            }
        },
    }
}

/// What holds of every node of each tree of a row holds of every node that a
/// traversal of the row yields.
pub proof fn lemma_every_node_in_preorder_from(
    children: Seq<TreeModel>,
    start: int,
    holds: spec_fn(TreeModel) -> bool,
)
    requires
        forall|k: int| 0 <= k < children.len() ==> every_node(#[trigger] children[k], holds),
    ensures
        forall|i: int|
            0 <= i < preorder_from(children, start).len() ==> holds(
                #[trigger] preorder_from(children, start)[i],
            ),
    decreases children, children.len() - start,
{
    if 0 <= start < children.len() {
        lemma_every_node_in_preorder(children[start], holds);
        lemma_every_node_in_preorder_from(children, start + 1, holds);
        let first = preorder(children[start]);
        let others = preorder_from(children, start + 1);
        assert forall|i: int| 0 <= i < preorder_from(children, start).len() implies holds(
            #[trigger] preorder_from(children, start)[i],
        ) by {
            if i < first.len() {
                assert(preorder_from(children, start)[i] == first[i]);
            } else {
                assert(preorder_from(children, start)[i] == others[i - first.len()]);
            }
        }
    }
}

/// Subdivision to the end leaves no leaf that it would subdivide: every leaf
/// of the result holds fewer particles than the threshold, or has a box that
/// cannot be split.
pub proof fn lemma_refined_is_settled(
    node: TreeModel,
    grid: UniformGrid,
    positions: Seq<Point>,
    particles_per_cell: int,
)
    requires
        node.body is Leaf,
    ensures
        every_node(
            refined(node, grid, positions, particles_per_cell),
            settled_node(particles_per_cell),
        ),
    decreases node.upper.x - node.lower.x,
{
    let result = refined(node, grid, positions, particles_per_cell);
    let particles = node.body->particles;
    if particles.len() >= particles_per_cell && can_split_box(node.lower, node.upper) {
        let children = result.body->children;
        assert forall|k: int| 0 <= k < 8 implies every_node(
            #[trigger] children[k],
            settled_node(particles_per_cell),
        ) by {
            let octant = Octant::spec_all()[k];
            let fresh = child(grid, positions, node.lower, node.upper, particles, octant);
            lemma_child_is_smaller(node.lower, node.upper, octant);
            lemma_refined_is_settled(fresh, grid, positions, particles_per_cell);
        }
    }
}

/// Every leaf of an octree holds fewer particles than the threshold, or has a
/// box that cannot be split.
pub proof fn lemma_octree_is_settled(
    grid: UniformGrid,
    positions: Seq<Point>,
    particles_per_cell: int,
)
    ensures
        every_node(
            octree(grid, positions, particles_per_cell),
            settled_node(particles_per_cell),
        ),
{
    lemma_refined_is_settled(root_leaf(grid, positions.len()), grid, positions, particles_per_cell);
}

/// A traversal is a function of the tree: two sequences of nodes that both
/// are the depth-first order of one tree are the same sequence.
pub proof fn lemma_traversal_is_determined(
    tree: TreeModel,
    first: Seq<TreeModel>,
    second: Seq<TreeModel>,
)
    requires
        first == preorder(tree),
        second == preorder(tree),
    ensures
        first == second,
{
}

} // verus!
