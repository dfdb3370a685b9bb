use nalgebra::Vector3;
use particle_octree::{
    can_split, get_split_point, NodeBody, Octant, Octree, OctreeNode, PointIndex, UniformGrid,
};

fn unit_grid(n: i64) -> UniformGrid {
    UniformGrid::new([0, 0, 0], 10, [n, n, n]).unwrap()
}

fn corners(node: &OctreeNode) -> ([i64; 3], [i64; 3]) {
    (node.lower_corner().index(), node.upper_corner().index())
}

fn point(grid: &UniformGrid, index: [i64; 3]) -> PointIndex {
    grid.get_point(&index).unwrap()
}

/// Positions spread over the box `[0, extent)` in each axis, from a fixed
/// linear congruential sequence.
fn scattered(n: usize, extent: i64) -> Vec<Vector3<i64>> {
    let mut state: u64 = 0x2545_f491_4f6c_dd1d;
    let mut next = || {
        state = state
            .wrapping_mul(6364136223846793005)
            .wrapping_add(1442695040888963407);
        ((state >> 33) % (extent as u64)) as i64
    };
    let mut positions = Vec::with_capacity(n);
    for _ in 0..n {
        let x = next();
        let y = next();
        let z = next();
        positions.push(Vector3::new(x, y, z));
    }
    positions
}

fn leaf_particles(tree: &Octree) -> Vec<usize> {
    let mut found = Vec::new();
    let mut iter = tree.depth_first_iter();
    while let Some(node) = iter.next() {
        if let Some(particles) = node.particles() {
            found.extend_from_slice(particles);
        }
    }
    found
}

#[test]
fn build_octree() {
    let particles = scattered(4732, 1000);
    println!("Generated {} particles", particles.len());

    let grid = UniformGrid::new([0, 0, 0], 25, [41, 41, 41]).unwrap();

    println!("{:?}", grid);

    let octree = Octree::new(&grid, particles.as_slice(), 60);

    let mut particle_count = 0;
    let mut iter = octree.depth_first_iter();
    while let Some(node) = iter.next() {
        if let Some(particles) = node.particles() {
            println!("Leaf with: {} particles", particles.len());
            particle_count += particles.len();
        }
    }
    assert_eq!(particle_count, particles.len());

    let mesh = octree.into_hexmesh(&grid);
    let n_leaves = octree
        .depth_first()
        .iter()
        .filter(|node| node.is_leaf())
        .count();
    assert_eq!(mesh.cells.len(), n_leaves);
    assert_eq!(mesh.vertices.len(), 8 * n_leaves);
}

#[test]
fn leaves_hold_every_particle_exactly_once() {
    let particles = scattered(500, 80);
    let grid = unit_grid(9);
    for particles_per_cell in [1, 2, 7, 60, 500, 501] {
        let octree = Octree::new(&grid, particles.as_slice(), particles_per_cell);
        let mut found = leaf_particles(&octree);
        found.sort();
        let expected: Vec<usize> = (0..particles.len()).collect();
        assert_eq!(found, expected);
    }
}

#[test]
fn leaves_are_below_threshold_or_cannot_split() {
    let particles = scattered(500, 80);
    let grid = unit_grid(9);
    let octree = Octree::new(&grid, particles.as_slice(), 7);
    for node in octree.depth_first() {
        let can = can_split(node.lower_corner(), node.upper_corner());
        match node.particles() {
            Some(held) => assert!(held.len() < 7 || !can),
            None => assert!(can),
        }
    }
}

#[test]
fn particles_lie_in_the_box_of_their_leaf() {
    let particles = scattered(300, 81);
    let grid = unit_grid(9);
    let octree = Octree::new(&grid, particles.as_slice(), 4);
    for node in octree.depth_first() {
        if let Some(held) = node.particles() {
            let low = grid.point_coordinates(node.lower_corner());
            let up = grid.point_coordinates(node.upper_corner());
            for &particle in held {
                for axis in 0..3 {
                    assert!(low[axis] <= particles[particle][axis]);
                    assert!(particles[particle][axis] <= up[axis]);
                }
            }
        }
    }
}

#[test]
fn ten_particles_in_the_lowest_octant() {
    // Index range 0..8 per axis, planes at 0, 10, .., 80; the root splits at 40.
    let grid = unit_grid(9);
    let particles: Vec<Vector3<i64>> = (0..10)
        .map(|i| Vector3::new(21 + i, 22 + i, 23 + i))
        .collect();
    let octree = Octree::new(&grid, particles.as_slice(), 5);

    let root = octree.root();
    assert!(!root.is_leaf());
    assert_eq!(root.particles(), None);
    assert_eq!(corners(root), ([0, 0, 0], [8, 8, 8]));
    let children = root.children().unwrap();
    assert_eq!(children.len(), 8);

    // The first child holds all ten, so it was subdivided further.
    let first = &children[0];
    assert!(!first.is_leaf());
    assert_eq!(corners(first), ([0, 0, 0], [4, 4, 4]));
    for child in &children[1..] {
        assert!(child.is_leaf());
        assert_eq!(child.particles().unwrap(), &[] as &[usize]);
        assert_eq!(child.children().map(|c| c.len()), None);
    }

    // Below it, the split is at index 2, that is at 20: all ten lie above.
    let grandchildren = first.children().unwrap();
    assert_eq!(grandchildren.len(), 8);
    for (k, grandchild) in grandchildren.iter().enumerate() {
        if k == 7 {
            // Box [2, 4]: split at index 3, that is at 30.
            assert!(!grandchild.is_leaf());
            assert_eq!(corners(grandchild), ([2, 2, 2], [4, 4, 4]));
        } else {
            assert!(grandchild.is_leaf());
            assert!(grandchild.particles().unwrap().is_empty());
        }
    }

    let mut found = leaf_particles(&octree);
    found.sort();
    assert_eq!(found, (0..10).collect::<Vec<usize>>());
}

#[test]
fn lowest_octant_keeps_all_particles_below_the_split() {
    let grid = unit_grid(9);
    let particles: Vec<Vector3<i64>> = (0..10).map(|i| Vector3::new(i, i + 1, i + 2)).collect();
    let mut root = OctreeNode::new_root(&grid, particles.len());
    root.subdivide(&grid, particles.as_slice());
    let children = root.children().unwrap();
    assert_eq!(
        children[0].particles().unwrap(),
        &[0, 1, 2, 3, 4, 5, 6, 7, 8, 9]
    );
    for child in &children[1..] {
        assert!(child.particles().unwrap().is_empty());
    }
}

#[test]
fn threshold_above_particle_count_gives_a_single_leaf() {
    let grid = unit_grid(9);
    let particles = scattered(10, 80);
    let octree = Octree::new(&grid, particles.as_slice(), 11);
    let root = octree.root();
    assert!(root.is_leaf());
    assert_eq!(root.particles().unwrap(), &[0, 1, 2, 3, 4, 5, 6, 7, 8, 9]);
    assert!(root.children().is_none());
    assert_eq!(corners(root), ([0, 0, 0], [8, 8, 8]));
    assert_eq!(octree.depth_first().len(), 1);
}

#[test]
fn threshold_equal_to_particle_count_subdivides() {
    let grid = unit_grid(9);
    let particles = scattered(10, 80);
    let octree = Octree::new(&grid, particles.as_slice(), 10);
    assert!(!octree.root().is_leaf());
}

#[test]
fn no_particles_and_threshold_zero_subdivide_to_the_floor() {
    // An empty leaf is subdivided like any other where the threshold lets it.
    let grid = unit_grid(5);
    let octree = Octree::new(&grid, &[], 0);
    let nodes = octree.depth_first();
    // Boxes of 4, 2 and 1 cells per axis: 1 + 8 + 64 nodes.
    assert_eq!(nodes.len(), 73);
    for node in &nodes {
        let (lower, upper) = corners(node);
        if node.is_leaf() {
            assert_eq!(upper[0] - lower[0], 1);
            assert!(node.particles().unwrap().is_empty());
        }
    }
    let octree = Octree::new(&grid, &[], 1);
    assert!(octree.root().is_leaf());
}

#[test]
fn box_at_the_resolution_floor_stays_a_leaf() {
    let grid = unit_grid(2);
    let particles = scattered(100, 10);
    let octree = Octree::new(&grid, particles.as_slice(), 1);
    let root = octree.root();
    assert!(root.is_leaf());
    assert_eq!(root.particles().unwrap().len(), 100);
    assert_eq!(corners(root), ([0, 0, 0], [1, 1, 1]));
}

#[test]
fn box_thin_along_one_axis_stays_a_leaf() {
    let grid = UniformGrid::new([0, 0, 0], 10, [9, 9, 2]).unwrap();
    let particles = scattered(100, 10);
    let octree = Octree::new(&grid, particles.as_slice(), 1);
    assert!(octree.root().is_leaf());

    let mut leaf = OctreeNode::new_leaf(
        point(&grid, [0, 0, 0]),
        point(&grid, [8, 8, 1]),
        (0..100).collect(),
    );
    leaf.subdivide(&grid, particles.as_slice());
    assert!(leaf.is_leaf());
    assert_eq!(leaf.particles().unwrap().len(), 100);
}

#[test]
fn can_split_needs_room_on_every_axis() {
    let grid = unit_grid(9);
    let origin = point(&grid, [0, 0, 0]);
    assert!(can_split(&origin, &point(&grid, [2, 2, 2])));
    assert!(can_split(&origin, &point(&grid, [8, 2, 5])));
    assert!(!can_split(&origin, &point(&grid, [1, 2, 2])));
    assert!(!can_split(&origin, &point(&grid, [2, 1, 2])));
    assert!(!can_split(&origin, &point(&grid, [2, 2, 1])));
    assert!(!can_split(&origin, &origin));
    assert!(!can_split(&point(&grid, [3, 3, 3]), &point(&grid, [4, 8, 8])));
    assert!(!can_split(&point(&grid, [8, 8, 8]), &origin));
}

#[test]
fn split_point_is_the_midpoint_rounded_down() {
    let grid = unit_grid(9);
    let split = |lower: [i64; 3], upper: [i64; 3]| {
        get_split_point(&grid, &point(&grid, lower), &point(&grid, upper))
            .unwrap()
            .index()
    };
    assert_eq!(split([0, 0, 0], [8, 8, 8]), [4, 4, 4]);
    assert_eq!(split([0, 0, 0], [3, 5, 2]), [1, 2, 1]);
    assert_eq!(split([4, 4, 4], [8, 8, 8]), [6, 6, 6]);
    assert_eq!(split([1, 2, 3], [4, 7, 8]), [2, 4, 5]);
    assert_eq!(split([5, 5, 5], [5, 5, 5]), [5, 5, 5]);
}

#[test]
fn split_point_of_huge_indices_does_not_overflow() {
    let grid = UniformGrid::new([0, 0, 0], 1, [i64::MAX, 3, 3]).unwrap();
    let lower = point(&grid, [i64::MAX - 3, 0, 0]);
    let upper = point(&grid, [i64::MAX - 1, 2, 2]);
    assert_eq!(
        get_split_point(&grid, &lower, &upper).unwrap().index(),
        [i64::MAX - 2, 1, 1]
    );
}

#[test]
fn split_point_outside_the_grid_is_none() {
    let large = unit_grid(9);
    let small = unit_grid(3);
    let lower = point(&large, [4, 4, 4]);
    let upper = point(&large, [8, 8, 8]);
    assert_eq!(get_split_point(&small, &lower, &upper), None);
}

#[test]
fn subdivide_gives_each_octant_its_box() {
    let grid = unit_grid(9);
    let mut node = OctreeNode::new_leaf(point(&grid, [0, 2, 4]), point(&grid, [8, 7, 6]), vec![]);
    node.subdivide(&grid, &[]);
    let children = node.children().unwrap();
    // Split point: (4, 4, 5).
    let expected = [
        ([0, 2, 4], [4, 4, 5]),
        ([4, 2, 4], [8, 4, 5]),
        ([0, 4, 4], [4, 7, 5]),
        ([4, 4, 4], [8, 7, 5]),
        ([0, 2, 5], [4, 4, 6]),
        ([4, 2, 5], [8, 4, 6]),
        ([0, 4, 5], [4, 7, 6]),
        ([4, 4, 5], [8, 7, 6]),
    ];
    assert_eq!(children.len(), 8);
    for (child, boxed) in children.iter().zip(expected.iter()) {
        assert_eq!(corners(child), *boxed);
        assert!(child.is_leaf());
    }
    // The parent keeps its box.
    assert_eq!(corners(&node), ([0, 2, 4], [8, 7, 6]));
}

#[test]
fn subdivide_puts_particles_on_a_split_plane_on_the_positive_side() {
    let grid = unit_grid(9);
    // The split planes of the root are at 40.
    let particles = vec![
        Vector3::new(40, 40, 40),
        Vector3::new(39, 40, 40),
        Vector3::new(40, 39, 40),
        Vector3::new(40, 40, 39),
        Vector3::new(39, 39, 39),
        Vector3::new(40, 0, 0),
        Vector3::new(0, 40, 0),
        Vector3::new(0, 0, 40),
    ];
    let mut root = OctreeNode::new_root(&grid, particles.len());
    root.subdivide(&grid, particles.as_slice());
    let children = root.children().unwrap();
    let held = |octant: Octant| children[octant.index()].particles().unwrap().to_vec();
    assert_eq!(held(Octant::PosPosPos), vec![0]);
    assert_eq!(held(Octant::NegPosPos), vec![1]);
    assert_eq!(held(Octant::PosNegPos), vec![2]);
    assert_eq!(held(Octant::PosPosNeg), vec![3]);
    assert_eq!(held(Octant::NegNegNeg), vec![4]);
    assert_eq!(held(Octant::PosNegNeg), vec![5]);
    assert_eq!(held(Octant::NegPosNeg), vec![6]);
    assert_eq!(held(Octant::NegNegPos), vec![7]);
}

#[test]
fn subdivide_keeps_the_order_and_the_indices_of_the_parent() {
    let grid = unit_grid(9);
    let particles = vec![
        Vector3::new(70, 70, 70),
        Vector3::new(1, 1, 1),
        Vector3::new(71, 71, 71),
        Vector3::new(2, 2, 2),
        Vector3::new(72, 72, 72),
        Vector3::new(3, 3, 3),
    ];
    // A leaf that holds the particles in an order of its own.
    let mut node = OctreeNode::new_leaf(
        point(&grid, [0, 0, 0]),
        point(&grid, [8, 8, 8]),
        vec![5, 4, 3, 2, 1, 0],
    );
    node.subdivide(&grid, particles.as_slice());
    let children = node.children().unwrap();
    assert_eq!(children[0].particles().unwrap(), &[5, 3, 1]);
    assert_eq!(children[7].particles().unwrap(), &[4, 2, 0]);
    for child in &children[1..7] {
        assert!(child.particles().unwrap().is_empty());
    }
}

#[test]
fn children_below_the_root_hold_particle_indices() {
    // Particles 0..3 lie high, 4..7 low: below the first split the lists of
    // the children must still name the particles, not places in a list.
    let grid = unit_grid(9);
    let particles = vec![
        Vector3::new(70, 70, 70),
        Vector3::new(71, 71, 71),
        Vector3::new(72, 72, 72),
        Vector3::new(73, 73, 73),
        Vector3::new(1, 1, 1),
        Vector3::new(2, 2, 2),
        Vector3::new(25, 25, 25),
        Vector3::new(26, 26, 26),
    ];
    let octree = Octree::new(&grid, particles.as_slice(), 3);
    let root = octree.root();
    let children = root.children().unwrap();
    let low = children[0].children().unwrap();
    assert_eq!(low[0].particles().unwrap(), &[4, 5]);
    assert_eq!(low[7].particles().unwrap(), &[6, 7]);
    let high = children[7].children().unwrap();
    // Box [4, 8], split at index 6, that is at 60: all four lie above.
    assert!(!high[7].is_leaf());
    let mut found = leaf_particles(&octree);
    found.sort();
    assert_eq!(found, vec![0, 1, 2, 3, 4, 5, 6, 7]);
}

#[test]
fn subdivide_recursively_leaves_an_internal_node_alone() {
    let grid = unit_grid(9);
    let particles = scattered(20, 80);
    let mut root = OctreeNode::new_root(&grid, particles.len());
    root.subdivide(&grid, particles.as_slice());
    let before: Vec<Vec<usize>> = root
        .children()
        .unwrap()
        .iter()
        .map(|child| child.particles().unwrap().to_vec())
        .collect();
    root.subdivide_recursively(&grid, particles.as_slice(), 1);
    let after: Vec<Vec<usize>> = root
        .children()
        .unwrap()
        .iter()
        .map(|child| child.particles().unwrap().to_vec())
        .collect();
    assert_eq!(before, after);
}

#[test]
fn new_root_covers_the_grid() {
    let grid = UniformGrid::new([5, 5, 5], 3, [4, 7, 2]).unwrap();
    let root = OctreeNode::new_root(&grid, 4);
    assert_eq!(corners(&root), ([0, 0, 0], [3, 6, 1]));
    assert_eq!(root.particles().unwrap(), &[0, 1, 2, 3]);
    let root = OctreeNode::new_root(&grid, 0);
    assert!(root.particles().unwrap().is_empty());
    // More particles than the storage keeps inline.
    let root = OctreeNode::new_root(&grid, 100);
    assert_eq!(
        root.particles().unwrap(),
        (0..100).collect::<Vec<usize>>().as_slice()
    );
}

#[test]
fn node_body_leaf_and_children() {
    let body = NodeBody::new_leaf(vec![3, 1, 2]);
    assert!(body.is_leaf());
    assert_eq!(body.particles().unwrap(), &[3, 1, 2]);
    assert!(body.children().is_none());

    let grid = unit_grid(3);
    let mut children = Vec::new();
    for i in 0..8 {
        children.push(Box::new(OctreeNode::new_leaf(
            point(&grid, [0, 0, 0]),
            point(&grid, [1, 1, 1]),
            vec![i],
        )));
    }
    let mut body = NodeBody::new_with_children(children);
    assert!(!body.is_leaf());
    assert!(body.particles().is_none());
    let held: Vec<usize> = body
        .children()
        .unwrap()
        .iter()
        .map(|child| child.particles().unwrap()[0])
        .collect();
    assert_eq!(held, vec![0, 1, 2, 3, 4, 5, 6, 7]);

    let particles = vec![Vector3::new(0, 0, 0)];
    {
        let slice = body.children_mut().unwrap();
        assert_eq!(slice.len(), 8);
        slice.swap(0, 7);
        slice[1].subdivide(&grid, particles.as_slice());
    }
    let children = body.children().unwrap();
    assert_eq!(children[0].particles().unwrap(), &[7]);
    assert_eq!(children[7].particles().unwrap(), &[0]);
    assert!(children[1].is_leaf());

    let mut leaf = NodeBody::new_leaf(vec![]);
    assert!(leaf.children_mut().is_none());
    assert!(leaf.particles().unwrap().is_empty());
}

#[test]
fn depth_first_yields_parents_first_and_children_in_canonical_order() {
    let grid = unit_grid(9);
    let particles: Vec<Vector3<i64>> = (0..10)
        .map(|i| Vector3::new(21 + i, 22 + i, 23 + i))
        .collect();
    let octree = Octree::new(&grid, particles.as_slice(), 20);
    assert_eq!(octree.depth_first().len(), 1);

    let mut root = OctreeNode::new_root(&grid, particles.len());
    root.subdivide(&grid, particles.as_slice());
    // One level: the root, then its children from octant 0 to octant 7.
    let octree = Octree::new(&grid, particles.as_slice(), 10);
    let nodes = octree.depth_first();
    assert!(std::ptr::eq(nodes[0], octree.root()));
    let children = octree.root().children().unwrap();
    // The first child was subdivided twice more: 1 + 8 + 8 nodes come before
    // the second child.
    assert!(std::ptr::eq(nodes[1], &*children[0]));
    let below = children[0].children().unwrap();
    for k in 0..8 {
        assert!(std::ptr::eq(nodes[2 + k], &*below[k]));
    }
    let deepest = below[7].children().unwrap();
    for k in 0..8 {
        assert!(std::ptr::eq(nodes[10 + k], &*deepest[k]));
    }
    for k in 1..8 {
        assert!(std::ptr::eq(nodes[17 + k], &*children[k]));
    }
    assert_eq!(nodes.len(), 25);
}

#[test]
fn two_traversals_yield_the_same_nodes() {
    let grid = unit_grid(17);
    let particles = scattered(200, 160);
    let octree = Octree::new(&grid, particles.as_slice(), 5);
    let first = octree.depth_first();
    let second = octree.depth_first();
    assert_eq!(first.len(), second.len());
    for (a, b) in first.iter().zip(second.iter()) {
        assert!(std::ptr::eq(*a, *b));
    }
    // The traversal in steps yields the same sequence, and then ends for good.
    let mut iter = octree.depth_first_iter();
    for node in &first {
        assert!(std::ptr::eq(iter.next().unwrap(), *node));
    }
    assert!(iter.next().is_none());
    assert!(iter.next().is_none());
}

#[test]
fn hexmesh_of_a_single_leaf() {
    let grid = UniformGrid::new([-10, 0, 10], 5, [3, 4, 5]).unwrap();
    let octree = Octree::new(&grid, &[], 1);
    let mesh = octree.into_hexmesh(&grid);
    let vertices: Vec<[i64; 3]> = mesh.vertices.iter().map(|v| [v[0], v[1], v[2]]).collect();
    assert_eq!(
        vertices,
        vec![
            [-10, 0, 10],
            [0, 0, 10],
            [0, 15, 10],
            [-10, 15, 10],
            [-10, 0, 30],
            [0, 0, 30],
            [0, 15, 30],
            [-10, 15, 30],
        ]
    );
    assert_eq!(mesh.cells, vec![[0, 1, 2, 3, 4, 5, 6, 7]]);
}

#[test]
fn hexmesh_has_one_cell_per_leaf_and_shares_no_vertices() {
    let grid = unit_grid(9);
    let particles = scattered(10, 80);
    let octree = Octree::new(&grid, particles.as_slice(), 20);
    assert_eq!(octree.into_hexmesh(&grid).cells.len(), 1);

    let particles: Vec<Vector3<i64>> = (0..4).map(|i| Vector3::new(i, i, i)).collect();
    let mut root = OctreeNode::new_root(&grid, particles.len());
    root.subdivide(&grid, particles.as_slice());
    let octree = Octree::new(&grid, particles.as_slice(), 4);
    // The root splits; its first child holds all four and splits again, and
    // so on down to boxes of one cell: three levels of eight children.
    let mesh = octree.into_hexmesh(&grid);
    let leaves: Vec<&OctreeNode> = octree
        .depth_first()
        .into_iter()
        .filter(|node| node.is_leaf())
        .collect();
    assert_eq!(leaves.len(), 22);
    assert_eq!(mesh.cells.len(), 22);
    assert_eq!(mesh.vertices.len(), 176);
    for (c, cell) in mesh.cells.iter().enumerate() {
        for j in 0..8 {
            assert_eq!(cell[j], 8 * c + j);
        }
        let low = grid.point_coordinates(leaves[c].lower_corner());
        let up = grid.point_coordinates(leaves[c].upper_corner());
        assert_eq!(mesh.vertices[cell[0]], low);
        assert_eq!(mesh.vertices[cell[6]], up);
        assert_eq!(mesh.vertices[cell[1]], Vector3::new(up[0], low[1], low[2]));
        assert_eq!(mesh.vertices[cell[2]], Vector3::new(up[0], up[1], low[2]));
        assert_eq!(mesh.vertices[cell[3]], Vector3::new(low[0], up[1], low[2]));
        assert_eq!(mesh.vertices[cell[4]], Vector3::new(low[0], low[1], up[2]));
        assert_eq!(mesh.vertices[cell[5]], Vector3::new(up[0], low[1], up[2]));
        assert_eq!(mesh.vertices[cell[7]], Vector3::new(low[0], up[1], up[2]));
    }
}

#[test]
fn children_tile_the_box_of_their_parent() {
    let grid = unit_grid(9);
    let particles = scattered(300, 80);
    let octree = Octree::new(&grid, particles.as_slice(), 3);
    for node in octree.depth_first() {
        if let Some(children) = node.children() {
            let (lower, upper) = corners(node);
            let split = get_split_point(&grid, node.lower_corner(), node.upper_corner())
                .unwrap()
                .index();
            let mut volume = 0;
            for (k, child) in children.iter().enumerate() {
                let (low, up) = corners(child);
                for axis in 0..3 {
                    let positive = (k >> axis) & 1 == 1;
                    assert_eq!(low[axis], if positive { split[axis] } else { lower[axis] });
                    assert_eq!(up[axis], if positive { upper[axis] } else { split[axis] });
                }
                volume += (up[0] - low[0]) * (up[1] - low[1]) * (up[2] - low[2]);
            }
            assert_eq!(
                volume,
                (upper[0] - lower[0]) * (upper[1] - lower[1]) * (upper[2] - lower[2])
            );
        }
    }
}

#[test]
fn clone_gives_an_equal_tree() {
    let grid = unit_grid(9);
    let particles = scattered(100, 80);
    let octree = Octree::new(&grid, particles.as_slice(), 5);
    let copy = octree.clone();
    let nodes = octree.depth_first();
    let copies = copy.depth_first();
    assert_eq!(nodes.len(), copies.len());
    for (node, other) in nodes.iter().zip(copies.iter()) {
        assert!(!std::ptr::eq(*node, *other));
        assert_eq!(corners(node), corners(other));
        assert_eq!(node.particles(), other.particles());
        assert_eq!(node.is_leaf(), other.is_leaf());
    }
    let node = octree.root().clone();
    assert_eq!(corners(&node), corners(octree.root()));
    let body = NodeBody::new_leaf(vec![9, 8, 7, 6, 5, 4, 3, 2, 1, 0]).clone();
    assert_eq!(body.particles().unwrap(), &[9, 8, 7, 6, 5, 4, 3, 2, 1, 0]);
}
