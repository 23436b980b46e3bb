//! The encoded vector store capability.
//!
//! A store owns quantized (encoded) vectors, indexed by point id, and can
//! score an encoded query against a stored vector or two stored vectors
//! against each other. The scorer never inspects encoded bytes; it only asks
//! the store for scores. A store's scores are a function of the store, the
//! query and the ids alone, which the two spec functions of the trait state:
//! repeated calls with unchanged collaborators return identical scores.

use vstd::prelude::*;

use crate::types::{PointOffsetType, ScoreType};

verus! {

/// An encoded vector store, generic over the encoded-query type.
pub trait EncodedVectors<TEncodedQuery> {
    /// The score this store computes between an encoded query and the stored
    /// point `point_id`.
    spec fn score_point_spec(&self, query: &TEncodedQuery, point_id: PointOffsetType) -> ScoreType;

    /// The score this store computes between two stored points.
    spec fn score_internal_spec(
        &self,
        point_a: PointOffsetType,
        point_b: PointOffsetType,
    ) -> ScoreType;

    /// Scores an encoded query against the stored point `point_id`.
    fn score_point(&self, query: &TEncodedQuery, point_id: PointOffsetType) -> (s: ScoreType)
        ensures
            s == self.score_point_spec(query, point_id),
    ;

    /// Scores the stored points `point_a` and `point_b` against each other.
    fn score_internal(&self, point_a: PointOffsetType, point_b: PointOffsetType) -> (s: ScoreType)
        ensures
            s == self.score_internal_spec(point_a, point_b),
    ;
}

/// A store backed by a table of precomputed per-point scores: point `id`
/// scores `scores[id]` against any query, and `0` beyond the table. Two
/// stored points score the smaller of their two table entries. It serves as a
/// conforming reference backend where scoring cost does not matter, and as
/// the store under the crate's tests.
pub struct ScoreTable {
    pub scores: Vec<ScoreType>,
}

impl ScoreTable {
    /// The table entry for `id`, with `0` for ids beyond the table.
    pub open spec fn stored(self, id: PointOffsetType) -> ScoreType {
        if id < self.scores@.len() {
            self.scores@[id as int]
        } else {
            0
        }
    }
}

impl<TEncodedQuery> EncodedVectors<TEncodedQuery> for ScoreTable {
    open spec fn score_point_spec(&self, query: &TEncodedQuery, point_id: PointOffsetType) -> ScoreType {
        self.stored(point_id)
    }

    open spec fn score_internal_spec(
        &self,
        point_a: PointOffsetType,
        point_b: PointOffsetType,
    ) -> ScoreType {
        if self.stored(point_a) <= self.stored(point_b) {
            self.stored(point_a)
        } else {
            self.stored(point_b)
        }
    }

    fn score_point(&self, query: &TEncodedQuery, point_id: PointOffsetType) -> (s: ScoreType) {
        if (point_id as usize) < self.scores.len() {
            self.scores[point_id as usize]
        } else {
            0
        }
    }

    fn score_internal(&self, point_a: PointOffsetType, point_b: PointOffsetType) -> (s: ScoreType) {
        let a = if (point_a as usize) < self.scores.len() {
            self.scores[point_a as usize]
        } else {
            0
        };
        let b = if (point_b as usize) < self.scores.len() {
            self.scores[point_b as usize]
        } else {
            0
        };
        if a <= b {
            a
        } else {
            b
        }
    }
}

} // verus!
