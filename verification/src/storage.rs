//! The particle list of a leaf: a `SmallVec` that keeps up to eight indices inline.

use vstd::prelude::*;

verus! {

/// An ordered list of particle indices, held in a `smallvec::SmallVec<[usize; 8]>`.
#[verifier::external_body]
#[derive(Debug)]
pub struct ParticleStorage {
    inner: smallvec::SmallVec<[usize; 8]>,
}

/// The indices that a storage holds, in order.
pub uninterp spec fn particle_seq(s: ParticleStorage) -> Seq<usize>;

/// `SmallVec::new`, not verified: the new list is empty.
#[verifier::external_body]
pub(crate) fn storage_new() -> (s: ParticleStorage)
    ensures
        particle_seq(s) == Seq::<usize>::empty(),
{
    ParticleStorage { inner: smallvec::SmallVec::new() }
}

/// `SmallVec::push`, not verified: the value is appended and nothing else
/// changes. The list must hold fewer than `usize::MAX` items. Like
/// `Vec::push`, the outside code gives up where the list would outgrow the
/// memory that can be had; nothing is claimed of that.
#[verifier::external_body]
pub(crate) fn storage_push(s: &mut ParticleStorage, value: usize)
    requires
        particle_seq(*old(s)).len() < usize::MAX,
    ensures
        particle_seq(*final(s)) == particle_seq(*old(s)).push(value),
{
    s.inner.push(value)
}

/// `SmallVec::as_slice`, not verified: a slice of the items held, in order.
#[verifier::external_body]
pub(crate) fn storage_as_slice(s: &ParticleStorage) -> (items: &[usize])
    ensures
        items@ == particle_seq(*s),
{
    s.inner.as_slice()
}

/// `SmallVec::clone`, not verified: a new list with the same items in the
/// same order.
#[verifier::external_body]
pub(crate) fn storage_clone(s: &ParticleStorage) -> (copy: ParticleStorage)
    ensures
        particle_seq(copy) == particle_seq(*s),
{
    ParticleStorage { inner: s.inner.clone() }
}

} // verus!
