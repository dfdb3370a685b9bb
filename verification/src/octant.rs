//! The eight octants around a split point, in their canonical order.

use crate::grid::{PointIndex, UniformGrid};
use crate::model::{array_point, vector_point, Point};
use crate::vector::vector_get;
use vstd::prelude::*;
use vstd::std_specs::convert::FromSpecImpl;

verus! {

/// The side of a plane: below it, or on it and above.
#[derive(Copy, Clone, PartialEq, Eq, Debug, Structural)]
pub enum Direction {
    Negative,
    Positive,
}

impl Direction {
    /// `Positive` for `true`, `Negative` for `false`.
    pub open spec fn spec_from_bool(is_positive: bool) -> Direction {
        if is_positive {
            Direction::Positive
        } else {
            Direction::Negative
        }
    }

    /// Of two values, the second for `Positive` and the first for `Negative`.
    pub open spec fn select(self, negative: int, positive: int) -> int {
        if self is Positive {
            positive
        } else {
            negative
        }
    }

    /// `Positive` for `true`, `Negative` for `false`.
    pub fn from_bool(is_positive: bool) -> (r: Self)
        ensures
            r == Self::spec_from_bool(is_positive),
    {
        if is_positive {
            Direction::Positive
        } else {
            Direction::Negative
        }
    }

    /// Whether this is `Positive`.
    pub fn is_positive(&self) -> (r: bool)
        ensures
            r == (*self is Positive),
    {
        match self {
            Direction::Positive => true,
            Direction::Negative => false,
        }
    }

    /// Whether this is `Negative`.
    pub fn is_negative(&self) -> (r: bool)
        ensures
            r == (*self is Negative),
    {
        !self.is_positive()
    }
}

/// An octant, as one direction per axis.
#[derive(Copy, Clone, PartialEq, Eq, Debug, Structural)]
pub struct OctantFlags {
    pub x_axis: Direction,
    pub y_axis: Direction,
    pub z_axis: Direction,
}

/// An octant, by name. The name gives the directions along x, y and z, in
/// that order; the variants stand in canonical order, x varying fastest.
#[derive(Copy, Clone, PartialEq, Eq, Debug, Structural)]
pub enum Octant {
    NegNegNeg,
    PosNegNeg,
    NegPosNeg,
    PosPosNeg,
    NegNegPos,
    PosNegPos,
    NegPosPos,
    PosPosPos,
}

pub const ALL_OCTANTS: [Octant; 8] = [
    Octant::NegNegNeg,
    Octant::PosNegNeg,
    Octant::NegPosNeg,
    Octant::PosPosNeg,
    Octant::NegNegPos,
    Octant::PosNegPos,
    Octant::NegPosPos,
    Octant::PosPosPos,
];

impl OctantFlags {
    /// The flags with the given directions, `true` standing for positive.
    pub open spec fn spec_from_bool(x_positive: bool, y_positive: bool, z_positive: bool) -> Self {
        OctantFlags {
            x_axis: Direction::spec_from_bool(x_positive),
            y_axis: Direction::spec_from_bool(y_positive),
            z_axis: Direction::spec_from_bool(z_positive),
        }
    }

    /// The flags of a named octant.
    pub open spec fn spec_from_octant(octant: Octant) -> Self {
        match octant {
            Octant::NegNegNeg => Self::spec_from_bool(false, false, false),
            Octant::PosNegNeg => Self::spec_from_bool(true, false, false),
            Octant::NegPosNeg => Self::spec_from_bool(false, true, false),
            Octant::PosPosNeg => Self::spec_from_bool(true, true, false),
            Octant::NegNegPos => Self::spec_from_bool(false, false, true),
            Octant::PosNegPos => Self::spec_from_bool(true, false, true),
            Octant::NegPosPos => Self::spec_from_bool(false, true, true),
            Octant::PosPosPos => Self::spec_from_bool(true, true, true),
        }
    }

    /// The flags of all octants, in canonical order.
    pub open spec fn spec_all() -> Seq<OctantFlags> {
        Seq::new(8, |i: int| Self::spec_from_octant(Octant::spec_all()[i]))
    }

    /// The octant in which a displacement from the split point lies: along each
    /// axis positive where the component is zero or more, negative below zero.
    pub open spec fn spec_classify(displacement: Point) -> Self {
        Self::spec_from_bool(displacement.x >= 0, displacement.y >= 0, displacement.z >= 0)
    }

    /// Along each axis the index of `upper` where this octant is positive,
    /// that of `lower` where it is negative.
    pub open spec fn combine(self, lower: Point, upper: Point) -> Point {
        Point {
            x: self.x_axis.select(lower.x, upper.x),
            y: self.y_axis.select(lower.y, upper.y),
            z: self.z_axis.select(lower.z, upper.z),
        }
    }

    /// The flags of all octants, in canonical order.
    pub fn all() -> (r: [OctantFlags; 8])
        ensures
            r@ == Self::spec_all(),
    {
        let r = [
            Self::from_octant(Octant::NegNegNeg),
            Self::from_octant(Octant::PosNegNeg),
            Self::from_octant(Octant::NegPosNeg),
            Self::from_octant(Octant::PosPosNeg),
            Self::from_octant(Octant::NegNegPos),
            Self::from_octant(Octant::PosNegPos),
            Self::from_octant(Octant::NegPosPos),
            Self::from_octant(Octant::PosPosPos),
        ];
        assert(r@ =~= Self::spec_all());
        r
    }

    /// The flags with the given directions, `true` standing for positive.
    pub fn from_bool(x_positive: bool, y_positive: bool, z_positive: bool) -> (r: Self)
        ensures
            r == Self::spec_from_bool(x_positive, y_positive, z_positive),
    {
        Self {
            x_axis: Direction::from_bool(x_positive),
            y_axis: Direction::from_bool(y_positive),
            z_axis: Direction::from_bool(z_positive),
        }
    }

    /// The flags of a named octant.
    pub fn from_octant(octant: Octant) -> (r: Self)
        ensures
            r == Self::spec_from_octant(octant),
    {
        match octant {
            Octant::NegNegNeg => Self::from_bool(false, false, false),
            Octant::PosNegNeg => Self::from_bool(true, false, false),
            Octant::NegPosNeg => Self::from_bool(false, true, false),
            Octant::PosPosNeg => Self::from_bool(true, true, false),
            Octant::NegNegPos => Self::from_bool(false, false, true),
            Octant::PosNegPos => Self::from_bool(true, false, true),
            Octant::NegPosPos => Self::from_bool(false, true, true),
            Octant::PosPosPos => Self::from_bool(true, true, true),
        }
    }

    /// Classifies a displacement from the split point into its octant. A
    /// component of zero counts as positive.
    pub fn classify(point: &nalgebra::Vector3<i64>) -> (r: Self)
        ensures
            r == Self::spec_classify(vector_point(*point)),
    {
        Self::from_bool(
            vector_get(point, 0) >= 0,
            vector_get(point, 1) >= 0,
            vector_get(point, 2) >= 0,
        )
    }

    /// Classifies the displacement `position - origin` into its octant, for
    /// any two vectors: the difference is never formed in machine integers.
    pub fn classify_relative(
        position: &nalgebra::Vector3<i64>,
        origin: &nalgebra::Vector3<i64>,
    ) -> (r: Self)
        ensures
            r == Self::spec_classify(vector_point(*position).minus(vector_point(*origin))),
    {
        Self::from_bool(
            vector_get(position, 0) >= vector_get(origin, 0),
            vector_get(position, 1) >= vector_get(origin, 1),
            vector_get(position, 2) >= vector_get(origin, 2),
        )
    }

    /// Combines two grid points by choosing between their indices axis by
    /// axis, and looks the result up in the grid.
    pub fn combine_point_index(
        &self,
        grid: &UniformGrid,
        lower: &PointIndex,
        upper: &PointIndex,
    ) -> (r: Option<PointIndex>)
        ensures
            r is Some <==> grid.contains(self.combine(lower@, upper@)),
            r matches Some(p) ==> p@ == self.combine(lower@, upper@),
    {
        let lower = lower.index();
        let upper = upper.index();

        let combined_index = [
            if self.x_axis.is_positive() {
                upper[0]
            } else {
                lower[0]
            },
            if self.y_axis.is_positive() {
                upper[1]
            } else {
                lower[1]
            },
            if self.z_axis.is_positive() {
                upper[2]
            } else {
                lower[2]
            },
        ];
        assert(array_point(combined_index) == self.combine(array_point(lower), array_point(upper)));

        grid.get_point(&combined_index)
    }
}

impl From<Octant> for OctantFlags {
    fn from(octant: Octant) -> (r: Self) {
        Self::from_octant(octant)
    }
}

impl FromSpecImpl<Octant> for OctantFlags {
    open spec fn obeys_from_spec() -> bool {
        true
    }

    open spec fn from_spec(octant: Octant) -> Self {
        Self::spec_from_octant(octant)
    }
}

impl Default for OctantFlags {
    fn default() -> (r: Self)
        ensures
            r == Self::spec_from_octant(Octant::NegNegNeg),
    {
        OctantFlags {
            x_axis: Direction::Negative,
            y_axis: Direction::Negative,
            z_axis: Direction::Negative,
        }
    }
}

impl Octant {
    /// All octants, in canonical order.
    pub open spec fn spec_all() -> Seq<Octant> {
        seq![
            Octant::NegNegNeg,
            Octant::PosNegNeg,
            Octant::NegPosNeg,
            Octant::PosPosNeg,
            Octant::NegNegPos,
            Octant::PosNegPos,
            Octant::NegPosPos,
            Octant::PosPosPos,
        ]
    }

    /// The place of the octant in the canonical order: 1 for positive x, plus
    /// 2 for positive y, plus 4 for positive z.
    pub open spec fn spec_index(self) -> int {
        let flags = OctantFlags::spec_from_octant(self);
        flags.x_axis.select(0, 1) + flags.y_axis.select(0, 2) + flags.z_axis.select(0, 4)
    }

    /// The named octant with the given flags.
    pub open spec fn spec_from_flags(flags: OctantFlags) -> Octant {
        match (flags.x_axis, flags.y_axis, flags.z_axis) {
            (Direction::Negative, Direction::Negative, Direction::Negative) => Octant::NegNegNeg,
            (Direction::Positive, Direction::Negative, Direction::Negative) => Octant::PosNegNeg,
            (Direction::Negative, Direction::Positive, Direction::Negative) => Octant::NegPosNeg,
            (Direction::Positive, Direction::Positive, Direction::Negative) => Octant::PosPosNeg,
            (Direction::Negative, Direction::Negative, Direction::Positive) => Octant::NegNegPos,
            (Direction::Positive, Direction::Negative, Direction::Positive) => Octant::PosNegPos,
            (Direction::Negative, Direction::Positive, Direction::Positive) => Octant::NegPosPos,
            (Direction::Positive, Direction::Positive, Direction::Positive) => Octant::PosPosPos,
        }
    }

    /// All octants, in canonical order.
    pub fn all() -> (r: &'static [Octant; 8])
        ensures
            r@ == Self::spec_all(),
    {
        &ALL_OCTANTS
    }

    /// The place of the octant in the canonical order.
    pub fn index(self) -> (r: usize)
        ensures
            r == self.spec_index(),
            r < 8,
            Self::spec_all()[r as int] == self,
    {
        match self {
            Octant::NegNegNeg => 0,
            Octant::PosNegNeg => 1,
            Octant::NegPosNeg => 2,
            Octant::PosPosNeg => 3,
            Octant::NegNegPos => 4,
            Octant::PosNegPos => 5,
            Octant::NegPosPos => 6,
            Octant::PosPosPos => 7,
        }
    }

    /// The octant at a place of the canonical order, if the place is below 8.
    pub fn from_index(index: usize) -> (r: Option<Octant>)
        ensures
            index < 8 ==> r == Some(Self::spec_all()[index as int]),
            index >= 8 ==> r is None,
    {
        if index < 8 {
            Some(Self::all()[index])
        } else {
            None
        }
    }

    /// The named octant with the given flags.
    pub fn from_flags(flags: OctantFlags) -> (r: Self)
        ensures
            r == Self::spec_from_flags(flags),
    {
        let OctantFlags { x_axis, y_axis, z_axis } = flags;
        match (x_axis, y_axis, z_axis) {
            (Direction::Negative, Direction::Negative, Direction::Negative) => Octant::NegNegNeg,
            (Direction::Positive, Direction::Negative, Direction::Negative) => Octant::PosNegNeg,
            (Direction::Negative, Direction::Positive, Direction::Negative) => Octant::NegPosNeg,
            (Direction::Positive, Direction::Positive, Direction::Negative) => Octant::PosPosNeg,
            (Direction::Negative, Direction::Negative, Direction::Positive) => Octant::NegNegPos,
            (Direction::Positive, Direction::Negative, Direction::Positive) => Octant::PosNegPos,
            (Direction::Negative, Direction::Positive, Direction::Positive) => Octant::NegPosPos,
            (Direction::Positive, Direction::Positive, Direction::Positive) => Octant::PosPosPos,
        }
    }
}

/// Flags and names stand for the same eight octants: converting one into the
/// other and back changes nothing.
pub proof fn lemma_flags_round_trip(flags: OctantFlags, octant: Octant)
    ensures
        OctantFlags::spec_from_octant(Octant::spec_from_flags(flags)) == flags,
        Octant::spec_from_flags(OctantFlags::spec_from_octant(octant)) == octant,
{
}

impl From<OctantFlags> for Octant {
    fn from(flags: OctantFlags) -> (r: Self) {
        Self::from_flags(flags)
    }
}

impl FromSpecImpl<OctantFlags> for Octant {
    open spec fn obeys_from_spec() -> bool {
        true
    }

    open spec fn from_spec(flags: OctantFlags) -> Self {
        Self::spec_from_flags(flags)
    }
}

} // verus!
