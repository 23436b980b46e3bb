//! The quantized backend of the [`RawScorer`] capability.

use vstd::prelude::*;

use crate::bit_flags::{DeletionFlags, bits_of, flag_at};
use crate::encoded_vectors::EncodedVectors;
use crate::raw_scorer::{
    RawScorer, ids_below, lemma_scored_with_concat, lemma_scored_with_elems, scored_with,
};
use crate::tools::peek_top_largest_iterable;
use crate::types::{PointOffsetType, ScoreType, ScoredPointOffset};

verus! {

/// Deletion-aware scorer over one segment's quantized vectors. It borrows all
/// of its state — the encoded query, the two deletion flag sequences and the
/// encoded vector store — and owns none of it; the owners must keep the flag
/// sequences and the store frozen for reads over the scorer's lifetime. No
/// call retains scored results beyond its own output.
pub struct QuantizedRawScorer<'a, TEncodedQuery, TEncodedVectors> where
    TEncodedVectors: EncodedVectors<TEncodedQuery>,
 {
    /// The encoded query scored against stored points.
    pub query: TEncodedQuery,
    /// Flags for deleted points (and thus these vectors).
    pub point_deleted: DeletionFlags<'a>,
    /// Flags for deleted vectors in this segment.
    pub vec_deleted: DeletionFlags<'a>,
    /// The segment's store of encoded vectors.
    pub quantized_data: &'a TEncodedVectors,
}

impl<'a, TEncodedQuery, TEncodedVectors> RawScorer for QuantizedRawScorer<
    'a,
    TEncodedQuery,
    TEncodedVectors,
> where TEncodedVectors: EncodedVectors<TEncodedQuery> {
    /// A point is live iff the vector-deletion flag at `id` is absent or
    /// unset, and the point-deletion flag at `id` is absent or unset. Point
    /// deletion propagates to the vector flags asynchronously elsewhere, so
    /// the vector check is the authoritative fast path and the point check is
    /// the backstop against propagation lag; both must pass.
    open spec fn live(&self, id: PointOffsetType) -> bool {
        !flag_at(bits_of(self.vec_deleted), id) && !flag_at(bits_of(self.point_deleted), id)
    }

    open spec fn point_score(&self, id: PointOffsetType) -> ScoreType {
        self.quantized_data.score_point_spec(&self.query, id)
    }

    open spec fn internal_score(
        &self,
        point_a: PointOffsetType,
        point_b: PointOffsetType,
    ) -> ScoreType {
        self.quantized_data.score_internal_spec(point_a, point_b)
    }

    open spec fn id_range(&self) -> nat {
        bits_of(self.point_deleted).len()
    }

    fn check_vector(&self, point: PointOffsetType) -> (r: bool) {
        // Deleted points propagate to vectors; check vector deletion first for
        // the common-case early return.
        let vec_dead = match self.vec_deleted.get(point as usize) {
            Some(flag) => flag,
            None => false,
        };
        if vec_dead {
            return false;
        }
        // Additionally check point deletion for integrity, in case delete
        // propagation to the vector flags has not completed.
        let point_dead = match self.point_deleted.get(point as usize) {
            Some(flag) => flag,
            None => false,
        };
        !point_dead
    }

    fn score_point(&self, point: PointOffsetType) -> (s: ScoreType) {
        self.quantized_data.score_point(&self.query, point)
    }

    fn score_internal(&self, point_a: PointOffsetType, point_b: PointOffsetType) -> (s: ScoreType) {
        self.quantized_data.score_internal(point_a, point_b)
    }

    #[verifier::loop_isolation(false)]
    fn score_points(
        &self,
        points: &[PointOffsetType],
        scores: &mut Vec<ScoredPointOffset>,
    ) -> (n: usize) {
        let ghost all = points@;
        let ghost orig = scores@;
        let ghost lv = |id: PointOffsetType| self.live(id);
        let ghost sc = |id: PointOffsetType| self.point_score(id);
        let cap: usize = scores.len();
        if cap == 0 {
            proof {
                assert(scores@.subrange(0, 0) =~= self.live_scored(all).take(0));
                assert(scores@.skip(0) =~= orig.skip(0));
            }
            return 0;
        }
        let mut size: usize = 0;
        let mut i: usize = 0;
        while i < points.len()
            invariant
                i <= all.len(),
                size < cap,
                size == self.live_scored(all.take(i as int)).len(),
                scores@.len() == cap,
                scores@.subrange(0, size as int) == self.live_scored(all.take(i as int)),
                scores@.skip(size as int) == orig.skip(size as int),
            decreases all.len() - i,
        {
            let point_id = points[i];
            proof {
                assert(all.take(i + 1).drop_last() =~= all.take(i as int));
                assert(all.take(i + 1).last() == all[i as int]);
            }
            if self.check_vector(point_id) {
                let score = self.score_point(point_id);
                let entry = ScoredPointOffset { idx: point_id, score };
                let ghost pre = scores@;
                scores[size] = entry;
                size = size + 1;
                proof {
                    assert(scores@ == pre.update(size - 1, entry));
                    assert(self.live_scored(all.take(i + 1)) == self.live_scored(
                        all.take(i as int),
                    ).push(entry));
                    assert(scores@.subrange(0, size as int) =~= self.live_scored(all.take(i + 1)));
                    assert forall|k: int| size <= k < cap implies scores@[k] == orig[k] by {
                        assert(pre.skip(size - 1)[k - (size - 1)] == pre[k]);
                        assert(orig.skip(size - 1)[k - (size - 1)] == orig[k]);
                    }
                    assert(scores@.skip(size as int) =~= orig.skip(size as int));
                }
                if size == cap {
                    proof {
                        assert(all =~= all.take(i + 1) + all.skip(i + 1));
                        lemma_scored_with_concat(lv, sc, all.take(i + 1), all.skip(i + 1));
                        assert(self.live_scored(all) == self.live_scored(all.take(i + 1))
                            + self.live_scored(all.skip(i + 1)));
                        assert(self.live_scored(all).take(cap as int) =~= self.live_scored(
                            all.take(i + 1),
                        ));
                    }
                    return size;
                }
            } else {
                proof {
                    assert(self.live_scored(all.take(i + 1)) == self.live_scored(
                        all.take(i as int),
                    ));
                }
            }
            i = i + 1;
        }
        proof {
            assert(all.take(all.len() as int) =~= all);
            assert(self.live_scored(all).take(size as int) =~= self.live_scored(all));
        }
        size
    }

    #[verifier::loop_isolation(false)]
    fn peek_top_iter(&self, points: &[PointOffsetType], top: usize) -> (r: Vec<
        ScoredPointOffset,
    >) {
        let ghost lv = |id: PointOffsetType| self.live(id);
        let ghost sc = |id: PointOffsetType| self.point_score(id);
        let mut candidates: Vec<ScoredPointOffset> = Vec::new();
        let mut i: usize = 0;
        while i < points.len()
            invariant
                i <= points@.len(),
                candidates@ == self.live_scored(points@.take(i as int)),
            decreases points@.len() - i,
        {
            let point_id = points[i];
            proof {
                assert(points@.take(i + 1).drop_last() =~= points@.take(i as int));
                assert(points@.take(i + 1).last() == points@[i as int]);
            }
            if self.check_vector(point_id) {
                let score = self.score_point(point_id);
                candidates.push(ScoredPointOffset { idx: point_id, score });
            }
            i = i + 1;
        }
        proof {
            assert(points@.take(points@.len() as int) =~= points@);
        }
        let r = peek_top_largest_iterable(candidates, top);
        proof {
            lemma_scored_with_elems(lv, sc, points@);
            assert forall|j: int| 0 <= j < r@.len() implies {
                let c = #[trigger] r@[j];
                self.live(c.idx) && points@.contains(c.idx) && c.score == self.point_score(c.idx)
            } by {
                let c = r@[j];
                assert(self.live_scored(points@).contains(c));
                let m = choose|m: int|
                    0 <= m < self.live_scored(points@).len() && self.live_scored(points@)[m] == c;
                assert(scored_with(lv, sc, points@)[m] == c);
            }
        }
        r
    }

    #[verifier::loop_isolation(false)]
    fn peek_top_all(&self, top: usize) -> (r: Vec<ScoredPointOffset>) {
        let ghost lv = |id: PointOffsetType| self.live(id);
        let ghost sc = |id: PointOffsetType| self.point_score(id);
        let flag_count = self.point_deleted.len();
        let mut candidates: Vec<ScoredPointOffset> = Vec::new();
        let mut point_id: PointOffsetType = 0;
        while (point_id as usize) < flag_count
            invariant
                point_id <= self.id_range(),
                candidates@ == self.live_scored(ids_below(point_id as nat)),
            decreases self.id_range() - point_id,
        {
            proof {
                assert(ids_below((point_id + 1) as nat).drop_last() =~= ids_below(point_id as nat));
                assert(ids_below((point_id + 1) as nat).last() == point_id);
            }
            if self.check_vector(point_id) {
                let score = self.score_point(point_id);
                candidates.push(ScoredPointOffset { idx: point_id, score });
            }
            point_id = point_id + 1;
        }
        proof {
            assert(candidates@ == self.live_scored(ids_below(self.id_range())));
        }
        let r = peek_top_largest_iterable(candidates, top);
        proof {
            let universe = ids_below(self.id_range());
            lemma_scored_with_elems(lv, sc, universe);
            assert forall|j: int| 0 <= j < r@.len() implies {
                let c = #[trigger] r@[j];
                self.live(c.idx) && c.idx < self.id_range() && c.score == self.point_score(c.idx)
            } by {
                let c = r@[j];
                assert(self.live_scored(universe).contains(c));
                let m = choose|m: int|
                    0 <= m < self.live_scored(universe).len() && self.live_scored(universe)[m] == c;
                assert(scored_with(lv, sc, universe)[m] == c);
                assert(universe.contains(c.idx));
                let u = choose|u: int| 0 <= u < universe.len() && universe[u] == c.idx;
                assert(c.idx == u as PointOffsetType);
            }
        }
        r
    }
}

} // verus!
