use particle_octree::UniformGrid;

#[test]
fn grid_accepts_what_fits() {
    let grid = UniformGrid::new([-10, 0, 10], 5, [3, 4, 5]).unwrap();
    assert_eq!(*grid.points_per_dim(), [3, 4, 5]);
    assert_eq!(grid.cell_size(), 5);
}

#[test]
fn grid_rejects_bad_parameters() {
    assert!(UniformGrid::new([0, 0, 0], 0, [3, 3, 3]).is_none());
    assert!(UniformGrid::new([0, 0, 0], -1, [3, 3, 3]).is_none());
    assert!(UniformGrid::new([0, 0, 0], 1, [0, 3, 3]).is_none());
    assert!(UniformGrid::new([0, 0, 0], 1, [3, -2, 3]).is_none());
    assert!(UniformGrid::new([0, 0, 0], 1, [3, 3, 0]).is_none());
}

#[test]
fn grid_rejects_coordinates_beyond_i64() {
    assert!(UniformGrid::new([i64::MAX, 0, 0], 1, [2, 1, 1]).is_none());
    assert!(UniformGrid::new([i64::MAX, 0, 0], 1, [1, 1, 1]).is_some());
    assert!(UniformGrid::new([0, 0, 0], i64::MAX, [2, 2, 2]).is_some());
    assert!(UniformGrid::new([0, 1, 0], i64::MAX, [2, 2, 2]).is_none());
    assert!(UniformGrid::new([i64::MIN, i64::MIN, i64::MIN], i64::MAX, [3, 3, 3]).is_some());
    assert!(UniformGrid::new([i64::MIN, i64::MIN, i64::MIN], i64::MAX, [3, 4, 3]).is_none());
    assert!(UniformGrid::new([0, 0, 0], i64::MAX, [i64::MAX, 1, 1]).is_none());
}

#[test]
fn get_point_inside_and_outside() {
    let grid = UniformGrid::new([0, 0, 0], 2, [3, 4, 5]).unwrap();
    assert_eq!(grid.get_point(&[0, 0, 0]).unwrap().index(), [0, 0, 0]);
    assert_eq!(grid.get_point(&[2, 3, 4]).unwrap().index(), [2, 3, 4]);
    assert!(grid.get_point(&[3, 0, 0]).is_none());
    assert!(grid.get_point(&[0, 4, 0]).is_none());
    assert!(grid.get_point(&[0, 0, 5]).is_none());
    assert!(grid.get_point(&[-1, 0, 0]).is_none());
    assert!(grid.get_point(&[0, -1, 0]).is_none());
    assert!(grid.get_point(&[0, 0, -1]).is_none());
}

#[test]
fn point_coordinates_are_origin_plus_steps() {
    let grid = UniformGrid::new([-10, 0, 10], 5, [3, 4, 5]).unwrap();
    let point = grid.get_point(&[2, 3, 4]).unwrap();
    let coordinates = grid.point_coordinates(&point);
    assert_eq!([coordinates[0], coordinates[1], coordinates[2]], [0, 15, 30]);
    let point = grid.get_point(&[0, 0, 0]).unwrap();
    let coordinates = grid.point_coordinates(&point);
    assert_eq!([coordinates[0], coordinates[1], coordinates[2]], [-10, 0, 10]);
}

#[test]
fn point_coordinates_at_the_ends_of_i64() {
    let grid = UniformGrid::new([i64::MIN, i64::MIN, i64::MIN], i64::MAX, [3, 3, 3]).unwrap();
    let point = grid.get_point(&[2, 1, 0]).unwrap();
    let coordinates = grid.point_coordinates(&point);
    assert_eq!(
        [coordinates[0], coordinates[1], coordinates[2]],
        [i64::MAX - 1, -1, i64::MIN]
    );
}
