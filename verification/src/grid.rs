//! The background grid: a box of integer-indexed points at uniform spacing.

use crate::model::{array_point, vector_point, Point};
use crate::vector::vector_new;
use vstd::prelude::*;

verus! {

/// The handle of a grid point: its index triple. Handles come from
/// [`UniformGrid::get_point`] only.
#[derive(Copy, Clone, PartialEq, Eq, Debug, Structural)]
pub struct PointIndex {
    x: i64,
    y: i64,
    z: i64,
}

impl View for PointIndex {
    type V = Point;

    closed spec fn view(&self) -> Point {
        Point { x: self.x as int, y: self.y as int, z: self.z as int }
    }
}

impl PointIndex {
    #[verifier::type_invariant]
    closed spec fn nonnegative(self) -> bool {
        self.x >= 0 && self.y >= 0 && self.z >= 0
    }

    /// The index triple of the point. No index of a grid point is negative.
    pub fn index(&self) -> (r: [i64; 3])
        ensures
            array_point(r) == self@,
            r[0] >= 0 && r[1] >= 0 && r[2] >= 0,
    {
        proof {
            use_type_invariant(self);
        }
        [self.x, self.y, self.z]
    }
}

/// A grid of `n_x * n_y * n_z` points. The point with index `(i, j, k)` lies at
/// `origin + cell_size * (i, j, k)`.
#[derive(Copy, Clone, Debug)]
pub struct UniformGrid {
    origin: [i64; 3],
    cell_size: i64,
    n_points_per_dim: [i64; 3],
}

/// Whether the points of one axis can be laid out: at least one point, and the
/// last one at a coordinate that an `i64` holds.
pub open spec fn axis_fits(origin: int, cell_size: int, n_points: int) -> bool {
    n_points >= 1 && origin + cell_size * (n_points - 1) <= i64::MAX
}

fn check_axis(origin: i64, cell_size: i64, n_points: i64) -> (r: bool)
    requires
        cell_size > 0,
    ensures
        r == axis_fits(origin as int, cell_size as int, n_points as int),
{
    if n_points < 1 {
        return false;
    }
    assert(0 <= cell_size * (n_points - 1) <= 0x7fff_ffff_ffff_ffff * 0x7fff_ffff_ffff_ffff)
        by (nonlinear_arith)
        requires
            0 < cell_size <= 0x7fff_ffff_ffff_ffff,
            1 <= n_points <= 0x7fff_ffff_ffff_ffff,
    ;
    let last: i128 = origin as i128 + cell_size as i128 * (n_points as i128 - 1);
    last <= i64::MAX as i128
}

impl UniformGrid {
    /// The number of points along each axis.
    pub closed spec fn points(self) -> Point {
        array_point(self.n_points_per_dim)
    }

    /// The position of the point with index `(0, 0, 0)`.
    pub closed spec fn origin(self) -> Point {
        array_point(self.origin)
    }

    /// The distance between neighbouring points, the same along every axis.
    pub closed spec fn spacing(self) -> int {
        self.cell_size as int
    }

    /// The invariant of every grid: a positive spacing, and along each axis at
    /// least one point and coordinates that fit in an `i64`.
    #[verifier::type_invariant]
    pub open spec fn wf(self) -> bool {
        &&& self.spacing() > 0
        &&& axis_fits(self.origin().x, self.spacing(), self.points().x)
        &&& axis_fits(self.origin().y, self.spacing(), self.points().y)
        &&& axis_fits(self.origin().z, self.spacing(), self.points().z)
    }

    /// Whether `p` is the index of a point of the grid.
    pub open spec fn contains(self, p: Point) -> bool {
        &&& 0 <= p.x < self.points().x
        &&& 0 <= p.y < self.points().y
        &&& 0 <= p.z < self.points().z
    }

    /// The index of the last point: the corner opposite to `(0, 0, 0)`.
    pub open spec fn max_point(self) -> Point {
        Point { x: self.points().x - 1, y: self.points().y - 1, z: self.points().z - 1 }
    }

    /// The position of the grid plane with index `i` along one axis.
    pub open spec fn coordinate(self, axis: int, i: int) -> int {
        self.origin().get(axis) + self.spacing() * i
    }

    /// The position of the point with index `p`.
    pub open spec fn coordinates(self, p: Point) -> Point {
        Point {
            x: self.coordinate(0, p.x),
            y: self.coordinate(1, p.y),
            z: self.coordinate(2, p.z),
        }
    }

    /// A grid with the given origin, spacing and number of points per axis, if
    /// these describe one.
    pub fn new(origin: [i64; 3], cell_size: i64, n_points_per_dim: [i64; 3]) -> (r: Option<Self>)
        ensures
            r is Some <==> {
                &&& cell_size > 0
                &&& axis_fits(origin[0] as int, cell_size as int, n_points_per_dim[0] as int)
                &&& axis_fits(origin[1] as int, cell_size as int, n_points_per_dim[1] as int)
                &&& axis_fits(origin[2] as int, cell_size as int, n_points_per_dim[2] as int)
            },
            r matches Some(grid) ==> {
                &&& grid.wf()
                &&& grid.origin() == array_point(origin)
                &&& grid.spacing() == cell_size
                &&& grid.points() == array_point(n_points_per_dim)
            },
    {
        if cell_size <= 0 {
            return None;
        }
        if check_axis(origin[0], cell_size, n_points_per_dim[0]) && check_axis(
            origin[1],
            cell_size,
            n_points_per_dim[1],
        ) && check_axis(origin[2], cell_size, n_points_per_dim[2]) {
            Some(UniformGrid { origin, cell_size, n_points_per_dim })
        } else {
            None
        }
    }

    /// The number of points along each axis.
    pub fn points_per_dim(&self) -> (r: &[i64; 3])
        ensures
            array_point(*r) == self.points(),
            self.wf(),
    {
        proof {
            use_type_invariant(self);
        }
        &self.n_points_per_dim
    }

    /// The distance between neighbouring points.
    pub fn cell_size(&self) -> (r: i64)
        ensures
            r == self.spacing(),
            r > 0,
    {
        proof {
            use_type_invariant(self);
        }
        self.cell_size
    }

    /// The handle of the point with the given index triple, if the grid has it.
    pub fn get_point(&self, index: &[i64; 3]) -> (r: Option<PointIndex>)
        ensures
            r is Some <==> self.contains(array_point(*index)),
            r matches Some(p) ==> p@ == array_point(*index),
    {
        let n = &self.n_points_per_dim;
        if 0 <= index[0] && index[0] < n[0] && 0 <= index[1] && index[1] < n[1] && 0 <= index[2]
            && index[2] < n[2] {
            Some(PointIndex { x: index[0], y: index[1], z: index[2] })
        } else {
            None
        }
    }

    /// The position of a point of the grid.
    pub fn point_coordinates(&self, point: &PointIndex) -> (r: nalgebra::Vector3<i64>)
        requires
            self.contains(point@),
        ensures
            vector_point(r) == self.coordinates(point@),
    {
        proof {
            use_type_invariant(self);
        }
        let x = self.axis_coordinate(0, point.x);
        let y = self.axis_coordinate(1, point.y);
        let z = self.axis_coordinate(2, point.z);
        vector_new(x, y, z)
    }

    fn axis_coordinate(&self, axis: usize, i: i64) -> (r: i64)
        requires
            self.wf(),
            axis < 3,
            0 <= i < self.points().get(axis as int),
        ensures
            r == self.coordinate(axis as int, i as int),
    {
        proof {
            lemma_coordinate_bounds(*self, axis as int, i as int);
            assert(-0x8000_0000_0000_0000 * 0x8000_0000_0000_0000 <= self.cell_size * i
                <= 0x8000_0000_0000_0000 * 0x8000_0000_0000_0000) by (nonlinear_arith)
                requires
                    0 < self.cell_size <= 0x7fff_ffff_ffff_ffff,
                    0 <= i <= 0x7fff_ffff_ffff_ffff,
            ;
        }
        let wide: i128 = self.origin[axis] as i128 + self.cell_size as i128 * i as i128;
        wide as i64
    }
}

/// Every plane of a grid lies between its first and its last plane, so its
/// coordinate is a machine integer.
pub proof fn lemma_coordinate_bounds(grid: UniformGrid, axis: int, i: int)
    requires
        grid.wf(),
        0 <= axis < 3,
        0 <= i < grid.points().get(axis),
    ensures
        i64::MIN <= grid.origin().get(axis) <= grid.coordinate(axis, i) <= i64::MAX,
{
    let c = grid.spacing();
    let n = grid.points().get(axis);
    assert(0 <= c * i <= c * (n - 1)) by (nonlinear_arith)
        requires
            c > 0,
            0 <= i <= n - 1,
    ;
}

/// Coordinates grow with the index: a plane with a larger index lies at a
/// larger coordinate, and only equal indices share a coordinate.
pub proof fn lemma_coordinate_monotonic(grid: UniformGrid, axis: int, i: int, j: int)
    requires
        grid.wf(),
    ensures
        i <= j <==> grid.coordinate(axis, i) <= grid.coordinate(axis, j),
        i < j <==> grid.coordinate(axis, i) < grid.coordinate(axis, j),
{
    let c = grid.spacing();
    assert(i <= j ==> c * i <= c * j) by (nonlinear_arith)
        requires
            c > 0,
    ;
    assert(i < j ==> c * i < c * j) by (nonlinear_arith)
        requires
            c > 0,
    ;
    assert(j < i ==> c * j < c * i) by (nonlinear_arith)
        requires
            c > 0,
    ;
}

} // verus!
