//! Read-only access to soft-deletion flag sequences.
//!
//! The deletion flags of a segment are kept in `bitvec` bit-slices owned by
//! the segment's lifecycle managers; the scorer only reads them. The verifier
//! refuses `bitvec::slice::BitSlice` itself (its generics are bounded by
//! traits it has no knowledge of), so the borrowed slice is held in an opaque
//! wrapper and modelled as the `Seq<bool>` of its bits.

use vstd::prelude::*;

verus! {

/// A borrowed deletion flag sequence: a non-owning view of one `bitvec`
/// bit-slice, valid for the lifetime of the borrow. Opaque to the verifier;
/// its bits are given by [`bits_of`].
#[verifier::external_body]
pub struct DeletionFlags<'a> {
    pub bits: &'a bitvec::slice::BitSlice,
}

/// The bits held by a flag sequence, in index order.
pub uninterp spec fn bits_of(flags: DeletionFlags) -> Seq<bool>;

/// Whether the flag at `id` is present and set; a missing entry (an id at or
/// beyond the sequence's length) counts as unset.
pub open spec fn flag_at(flags: Seq<bool>, id: u32) -> bool {
    id < flags.len() && flags[id as int]
}

impl<'a> DeletionFlags<'a> {
    /// Relies on bitvec's `BitSlice::len`: the number of bits in the slice.
    #[verifier::external_body]
    pub fn len(&self) -> (n: usize)
        ensures
            n == bits_of(*self).len(),
    {
        self.bits.len()
    }

    /// Relies on bitvec's `BitSlice::get` with a `usize` index: `Some` of the
    /// bit at `index` when `index` is within the slice's length, `None`
    /// otherwise.
    #[verifier::external_body]
    pub fn get(&self, index: usize) -> (r: Option<bool>)
        ensures
            index < bits_of(*self).len() ==> r == Some(bits_of(*self)[index as int]),
            index >= bits_of(*self).len() ==> r is None,
    {
        self.bits.get(index).as_deref().copied()
    }
}

} // verus!
