//! The scorer capability exposed to the engine.
//!
//! A raw scorer ranks a segment's stored points against a query it holds,
//! under the segment's two-layer soft-deletion model. The candidate model is
//! [`live_scored`]: the live ids of a candidate sequence, in encounter order,
//! each paired with its score. Batch scoring writes a prefix of that model
//! into a caller buffer; the top-k calls rank it and keep the best `top`.

use vstd::prelude::*;

use crate::tools::{ranked, top_ranked};
use crate::types::{PointOffsetType, ScoreType, ScoredPointOffset};

verus! {

/// The ids `0, 1, .., n - 1`, in order.
pub open spec fn ids_below(n: nat) -> Seq<PointOffsetType> {
    Seq::new(n, |i: int| i as PointOffsetType)
}

/// The scored candidates among `ids` under the liveness filter `live` and the
/// scoring function `score`: each live id in encounter order, paired with its
/// score, dead ids dropped.
pub open spec fn scored_with(
    live: spec_fn(PointOffsetType) -> bool,
    score: spec_fn(PointOffsetType) -> ScoreType,
    ids: Seq<PointOffsetType>,
) -> Seq<ScoredPointOffset>
    decreases ids.len(),
{
    if ids.len() == 0 {
        Seq::empty()
    } else {
        let init = scored_with(live, score, ids.drop_last());
        if live(ids.last()) {
            init.push(ScoredPointOffset { idx: ids.last(), score: score(ids.last()) })
        } else {
            init
        }
    }
}

/// Deletion-aware scoring over one segment's stored vectors. `live` is the
/// scorer's liveness filter, `point_score` and `internal_score` the scores
/// its backend attaches to stored points: all three are functions of the
/// scorer value alone, so repeated calls with unchanged collaborators return
/// identical results.
pub trait RawScorer: Sized {
    /// Whether the point `id` is live: neither vector-deleted nor
    /// point-deleted.
    spec fn live(&self, id: PointOffsetType) -> bool;

    /// The score of the stored point `id` against the held query.
    spec fn point_score(&self, id: PointOffsetType) -> ScoreType;

    /// The score between the stored points `point_a` and `point_b`.
    spec fn internal_score(
        &self,
        point_a: PointOffsetType,
        point_b: PointOffsetType,
    ) -> ScoreType;

    /// The scored candidates among `ids`, in encounter order: each live id
    /// paired with its score, dead ids dropped.
    open spec fn live_scored(&self, ids: Seq<PointOffsetType>) -> Seq<ScoredPointOffset> {
        scored_with(
            |id: PointOffsetType| self.live(id),
            |id: PointOffsetType| self.point_score(id),
            ids,
        )
    }

    /// The candidate universe of [`RawScorer::peek_top_all`]: the ids
    /// `0..id_range()`, bounded by the point-deletion flag sequence's length.
    spec fn id_range(&self) -> nat;

    /// The liveness filter: true iff neither deletion layer marks `point`
    /// dead; flags missing at `point` count as not deleted.
    fn check_vector(&self, point: PointOffsetType) -> (r: bool)
        ensures
            r == self.live(point),
    ;

    /// Scores the held query against the stored point `point`, without a
    /// liveness check.
    fn score_point(&self, point: PointOffsetType) -> (s: ScoreType)
        ensures
            s == self.point_score(point),
    ;

    /// Scores two stored points against each other, without a liveness check.
    fn score_internal(&self, point_a: PointOffsetType, point_b: PointOffsetType) -> (s: ScoreType)
        ensures
            s == self.internal_score(point_a, point_b),
    ;

    /// Scores the live entries of `points` in order into the caller's buffer,
    /// stopping as soon as the buffer is full, and returns how many slots
    /// were written. The buffer's length is its capacity and never changes;
    /// slots past the written prefix keep their old values.
    fn score_points(
        &self,
        points: &[PointOffsetType],
        scores: &mut Vec<ScoredPointOffset>,
    ) -> (n: usize)
        ensures
            n <= old(scores)@.len(),
            final(scores)@.len() == old(scores)@.len(),
            n as int == if self.live_scored(points@).len() <= old(scores)@.len() {
                self.live_scored(points@).len() as int
            } else {
                old(scores)@.len() as int
            },
            final(scores)@.subrange(0, n as int) == self.live_scored(points@).take(n as int),
            final(scores)@.skip(n as int) == old(scores)@.skip(n as int),
            old(scores)@.len() == 0 ==> n == 0 && final(scores)@ == old(scores)@,
    ;

    /// The `top` highest-ranking live candidates among the caller-supplied
    /// `points`, highest score first, equal scores broken towards the lower
    /// id. Every returned candidate is live, appears in `points`, and carries
    /// its score.
    fn peek_top_iter(&self, points: &[PointOffsetType], top: usize) -> (r: Vec<ScoredPointOffset>)
        ensures
            r@ == top_ranked(self.live_scored(points@), top as int),
            r@.len() == if top <= self.live_scored(points@).len() {
                top as int
            } else {
                self.live_scored(points@).len() as int
            },
            ranked(r@),
            forall|j: int|
                0 <= j < r@.len() ==> {
                    let c = #[trigger] r@[j];
                    self.live(c.idx) && points@.contains(c.idx) && c.score == self.point_score(
                        c.idx,
                    )
                },
    ;

    /// The `top` highest-ranking live points of the whole segment, ids
    /// `0..id_range()`, highest score first, equal scores broken towards the
    /// lower id.
    fn peek_top_all(&self, top: usize) -> (r: Vec<ScoredPointOffset>)
        requires
            self.id_range() <= u32::MAX,
        ensures
            r@ == top_ranked(self.live_scored(ids_below(self.id_range())), top as int),
            r@.len() == if top <= self.live_scored(ids_below(self.id_range())).len() {
                top as int
            } else {
                self.live_scored(ids_below(self.id_range())).len() as int
            },
            ranked(r@),
            forall|j: int|
                0 <= j < r@.len() ==> {
                    let c = #[trigger] r@[j];
                    self.live(c.idx) && c.idx < self.id_range() && c.score == self.point_score(
                        c.idx,
                    )
                },
    ;
}

/// Splitting a candidate sequence splits its scored candidates.
pub proof fn lemma_scored_with_concat(
    live: spec_fn(PointOffsetType) -> bool,
    score: spec_fn(PointOffsetType) -> ScoreType,
    a: Seq<PointOffsetType>,
    b: Seq<PointOffsetType>,
)
    ensures
        scored_with(live, score, a + b) == scored_with(live, score, a) + scored_with(
            live,
            score,
            b,
        ),
    decreases b.len(),
{
    if b.len() == 0 {
        assert(a + b =~= a);
        assert(scored_with(live, score, a) + scored_with(live, score, b) =~= scored_with(
            live,
            score,
            a,
        ));
    } else {
        lemma_scored_with_concat(live, score, a, b.drop_last());
        assert((a + b).drop_last() =~= a + b.drop_last());
        assert((a + b).last() == b.last());
        if live(b.last()) {
            let c = ScoredPointOffset { idx: b.last(), score: score(b.last()) };
            assert(scored_with(live, score, a + b) == scored_with(
                live,
                score,
                a + b.drop_last(),
            ).push(c));
            assert(scored_with(live, score, a) + scored_with(live, score, b.drop_last()).push(c)
                =~= (scored_with(live, score, a) + scored_with(live, score, b.drop_last())).push(
                c,
            ));
        } else {
            assert(scored_with(live, score, a + b) == scored_with(live, score, a + b.drop_last()));
        }
    }
}

/// Every entry of `scored_with(live, score, ids)` is a live id of `ids`
/// paired with its score.
pub proof fn lemma_scored_with_elems(
    live: spec_fn(PointOffsetType) -> bool,
    score: spec_fn(PointOffsetType) -> ScoreType,
    ids: Seq<PointOffsetType>,
)
    ensures
        forall|j: int|
            0 <= j < scored_with(live, score, ids).len() ==> {
                let c = #[trigger] scored_with(live, score, ids)[j];
                ids.contains(c.idx) && live(c.idx) && c.score == score(c.idx)
            },
    decreases ids.len(),
{
    if ids.len() == 0 {
    } else {
        let d = ids.drop_last();
        lemma_scored_with_elems(live, score, d);
        assert forall|j: int| 0 <= j < scored_with(live, score, ids).len() implies {
            let c = #[trigger] scored_with(live, score, ids)[j];
            ids.contains(c.idx) && live(c.idx) && c.score == score(c.idx)
        } by {
            let c = scored_with(live, score, ids)[j];
            if live(ids.last()) && j == scored_with(live, score, ids).len() - 1 {
                assert(c.idx == ids.last());
                assert(ids[ids.len() - 1] == ids.last());
                assert(ids.contains(c.idx));
            } else {
                assert(c == scored_with(live, score, d)[j]);
                assert(d.contains(c.idx));
                let m = choose|m: int| 0 <= m < d.len() && d[m] == c.idx;
                assert(ids[m] == c.idx);
                assert(ids.contains(c.idx));
            }
        }
    }
}

/// Scoring one point is idempotent: any two results of scoring the same
/// point with the scorer unchanged are bit-identical, both being the scorer's
/// `point_score` at that id.
pub proof fn lemma_score_point_idempotent<S: RawScorer>(
    s: &S,
    first: ScoreType,
    second: ScoreType,
    id: PointOffsetType,
)
    requires
        first == s.point_score(id),
        second == s.point_score(id),
    ensures
        first == second,
{
}

} // verus!
