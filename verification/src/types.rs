//! Plain types shared by the scoring primitives.

use vstd::prelude::*;

verus! {

/// Identifier of a vector's slot within a segment's storage.
pub type PointOffsetType = u32;

/// Similarity value attached to a point: an order-preserving integer key for
/// the backend's similarity measure (higher is better). Backends that measure
/// similarity with machine reals hand out a monotone integer encoding of the
/// measured value, so that ranking this key ranks the underlying measure.
pub type ScoreType = u32;

/// A scored candidate: a point identifier paired with its similarity score.
#[derive(Clone, Copy, Debug, PartialEq, Eq, Structural)]
pub struct ScoredPointOffset {
    pub idx: PointOffsetType,
    pub score: ScoreType,
}

} // verus!
