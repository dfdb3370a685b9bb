//! Three-component integer vectors of `nalgebra`, as the library sees them.

use vstd::prelude::*;

verus! {

/// `nalgebra::Matrix`, the type behind `Vector3`: an opaque value, of which
/// the library knows only what [`vector_components`] names.
#[verifier::external_type_specification]
#[verifier::external_body]
#[verifier::reject_recursive_types(T)]
#[verifier::reject_recursive_types(R)]
#[verifier::reject_recursive_types(C)]
#[verifier::reject_recursive_types(S)]
pub struct ExMatrix<T, R, C, S>(nalgebra::Matrix<T, R, C, S>);

/// `nalgebra::Const`, the dimension of a vector as a type.
#[verifier::external_type_specification]
#[verifier::external_body]
pub struct ExConst<const R: usize>(nalgebra::Const<R>);

/// `nalgebra::ArrayStorage`, the array in which a `Vector3` keeps its
/// components.
#[verifier::external_type_specification]
#[verifier::external_body]
#[verifier::reject_recursive_types(T)]
pub struct ExArrayStorage<T, const R: usize, const C: usize>(nalgebra::ArrayStorage<T, R, C>);

/// The components of a vector, in the order x, y, z.
pub uninterp spec fn vector_components(v: nalgebra::Vector3<i64>) -> Seq<i64>;

/// `nalgebra::Vector3::new`, not verified: the vector built from three
/// components holds exactly these, in the order given.
#[verifier::external_body]
pub(crate) fn vector_new(x: i64, y: i64, z: i64) -> (v: nalgebra::Vector3<i64>)
    ensures
        vector_components(v) == seq![x, y, z],
{
    nalgebra::Vector3::new(x, y, z)
}

/// Indexing of a `nalgebra::Vector3` by a `usize`, not verified: index `axis`
/// yields the component of that axis. The index must be below 3, as the
/// outside code panics beyond.
#[verifier::external_body]
pub(crate) fn vector_get(v: &nalgebra::Vector3<i64>, axis: usize) -> (c: i64)
    requires
        axis < 3,
    ensures
        c == vector_components(*v)[axis as int],
{
    v[axis]
}

} // verus!
