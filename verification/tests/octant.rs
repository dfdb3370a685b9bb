use nalgebra::Vector3;
use particle_octree::{Direction, Octant, OctantFlags, UniformGrid};

#[test]
fn test_octant_iter_all_consistency() {
    for (i, octant) in Octant::all().iter().copied().enumerate() {
        assert_eq!(octant as usize, i);
        assert_eq!(octant.index(), i);
        assert_eq!(Some(octant), Octant::from_index(i));
    }
}

#[test]
fn test_octant_flags_iter_all_consistency() {
    assert_eq!(Octant::all().len(), OctantFlags::all().len());
    for (octant, octant_flags) in Octant::all()
        .iter()
        .copied()
        .zip(OctantFlags::all().iter().copied())
    {
        assert_eq!(octant, Octant::from(octant_flags));
        assert_eq!(octant_flags, OctantFlags::from(octant));
    }
}

#[test]
fn octant_order_is_canonical() {
    let expected = [
        Octant::NegNegNeg,
        Octant::PosNegNeg,
        Octant::NegPosNeg,
        Octant::PosPosNeg,
        Octant::NegNegPos,
        Octant::PosNegPos,
        Octant::NegPosPos,
        Octant::PosPosPos,
    ];
    assert_eq!(*Octant::all(), expected);
    assert_eq!(Octant::from_index(8), None);
    assert_eq!(Octant::from_index(usize::MAX), None);
}

#[test]
fn octant_index_follows_the_flags() {
    for x in [false, true] {
        for y in [false, true] {
            for z in [false, true] {
                let flags = OctantFlags::from_bool(x, y, z);
                let octant = Octant::from_flags(flags);
                let expected = (x as usize) + 2 * (y as usize) + 4 * (z as usize);
                assert_eq!(octant.index(), expected);
                assert_eq!(OctantFlags::from_octant(octant), flags);
            }
        }
    }
}

#[test]
fn direction_from_bool() {
    assert_eq!(Direction::from_bool(true), Direction::Positive);
    assert_eq!(Direction::from_bool(false), Direction::Negative);
    assert!(Direction::Positive.is_positive());
    assert!(!Direction::Positive.is_negative());
    assert!(Direction::Negative.is_negative());
    assert!(!Direction::Negative.is_positive());
}

#[test]
fn flags_from_bool_and_default() {
    let flags = OctantFlags::from_bool(true, false, true);
    assert_eq!(flags.x_axis, Direction::Positive);
    assert_eq!(flags.y_axis, Direction::Negative);
    assert_eq!(flags.z_axis, Direction::Positive);
    assert_eq!(Octant::from_flags(flags), Octant::PosNegPos);
    assert_eq!(OctantFlags::default(), OctantFlags::from_octant(Octant::NegNegNeg));
}

#[test]
fn classify_by_sign() {
    assert_eq!(
        OctantFlags::classify(&Vector3::new(3, -2, 7)),
        OctantFlags::from_bool(true, false, true)
    );
    assert_eq!(
        OctantFlags::classify(&Vector3::new(-1, -1, -1)),
        OctantFlags::from_octant(Octant::NegNegNeg)
    );
    assert_eq!(
        OctantFlags::classify(&Vector3::new(i64::MIN, i64::MAX, 1)),
        OctantFlags::from_octant(Octant::NegPosPos)
    );
}

#[test]
fn classify_zero_is_positive() {
    assert_eq!(
        OctantFlags::classify(&Vector3::new(0, 0, 0)),
        OctantFlags::from_octant(Octant::PosPosPos)
    );
    assert_eq!(
        OctantFlags::classify(&Vector3::new(0, -1, -1)),
        OctantFlags::from_octant(Octant::PosNegNeg)
    );
    assert_eq!(
        OctantFlags::classify(&Vector3::new(-1, 0, -1)),
        OctantFlags::from_octant(Octant::NegPosNeg)
    );
    assert_eq!(
        OctantFlags::classify(&Vector3::new(-1, -1, 0)),
        OctantFlags::from_octant(Octant::NegNegPos)
    );
}

#[test]
fn classify_relative_compares_without_overflow() {
    let position = Vector3::new(i64::MAX, i64::MIN, 5);
    let origin = Vector3::new(i64::MIN, i64::MAX, 5);
    assert_eq!(
        OctantFlags::classify_relative(&position, &origin),
        OctantFlags::from_bool(true, false, true)
    );
    assert_eq!(
        OctantFlags::classify_relative(&Vector3::new(4, 4, 4), &Vector3::new(4, 5, 3)),
        OctantFlags::classify(&Vector3::new(0, -1, 1))
    );
}

#[test]
fn combine_point_index_picks_per_axis() {
    let grid = UniformGrid::new([0, 0, 0], 1, [9, 9, 9]).unwrap();
    let lower = grid.get_point(&[1, 2, 3]).unwrap();
    let upper = grid.get_point(&[5, 6, 7]).unwrap();
    let combined = OctantFlags::from_bool(true, false, true)
        .combine_point_index(&grid, &lower, &upper)
        .unwrap();
    assert_eq!(combined.index(), [5, 2, 7]);
    let combined = OctantFlags::from_octant(Octant::NegNegNeg)
        .combine_point_index(&grid, &lower, &upper)
        .unwrap();
    assert_eq!(combined.index(), [1, 2, 3]);
    let combined = OctantFlags::from_octant(Octant::PosPosPos)
        .combine_point_index(&grid, &lower, &upper)
        .unwrap();
    assert_eq!(combined.index(), [5, 6, 7]);
}

#[test]
fn combine_point_index_fails_outside_the_grid() {
    let large = UniformGrid::new([0, 0, 0], 1, [9, 9, 9]).unwrap();
    let small = UniformGrid::new([0, 0, 0], 1, [4, 4, 4]).unwrap();
    let lower = large.get_point(&[1, 2, 3]).unwrap();
    let upper = large.get_point(&[5, 6, 7]).unwrap();
    let flags = OctantFlags::from_bool(true, false, false);
    assert_eq!(flags.combine_point_index(&small, &lower, &upper), None);
    let flags = OctantFlags::from_bool(false, false, false);
    assert!(flags.combine_point_index(&small, &lower, &upper).is_some());
}
