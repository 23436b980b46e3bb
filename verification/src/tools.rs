//! Bounded top-k selection over scored candidates.
//!
//! Candidates are ranked by score, highest first; equal scores are broken
//! towards the lower point id, the one deterministic tie-break this crate
//! guarantees. The ranking of a candidate sequence is defined by insertion
//! ([`rank_sorted`]), and [`peek_top_largest_iterable`] returns its first
//! `top` entries.

use vstd::prelude::*;

use crate::types::ScoredPointOffset;

verus! {

/// `a` ranks at least as high as `b`: a strictly higher score, or an equal
/// score and an id no larger.
pub open spec fn ranks_geq(a: ScoredPointOffset, b: ScoredPointOffset) -> bool {
    a.score > b.score || (a.score == b.score && a.idx <= b.idx)
}

/// The sequence is in ranking order: scores descending, ties by ascending id.
pub open spec fn ranked(s: Seq<ScoredPointOffset>) -> bool {
    forall|i: int, j: int| 0 <= i < j < s.len() ==> #[trigger] ranks_geq(s[i], s[j])
}

/// `x` placed within `s` in front of the first element it ranks at least as
/// high as.
pub open spec fn insert_ranked(s: Seq<ScoredPointOffset>, x: ScoredPointOffset) -> Seq<
    ScoredPointOffset,
>
    decreases s.len(),
{
    if s.len() == 0 {
        seq![x]
    } else if ranks_geq(x, s[0]) {
        seq![x] + s
    } else {
        seq![s[0]] + insert_ranked(s.skip(1), x)
    }
}

/// `s` rearranged into ranking order, by insertion element by element.
pub open spec fn rank_sorted(s: Seq<ScoredPointOffset>) -> Seq<ScoredPointOffset>
    decreases s.len(),
{
    if s.len() == 0 {
        Seq::empty()
    } else {
        insert_ranked(rank_sorted(s.drop_last()), s.last())
    }
}

/// The `k` highest-ranking candidates of `s` in ranking order, or all of them
/// in ranking order when `s` holds fewer than `k`.
pub open spec fn top_ranked(s: Seq<ScoredPointOffset>, k: int) -> Seq<ScoredPointOffset> {
    rank_sorted(s).take(
        if k <= s.len() {
            k
        } else {
            s.len() as int
        },
    )
}

pub proof fn lemma_insert_ranked_len(s: Seq<ScoredPointOffset>, x: ScoredPointOffset)
    ensures
        insert_ranked(s, x).len() == s.len() + 1,
    decreases s.len(),
{
    if s.len() == 0 {
    } else if ranks_geq(x, s[0]) {
    } else {
        lemma_insert_ranked_len(s.skip(1), x);
    }
}

pub proof fn lemma_rank_sorted_len(s: Seq<ScoredPointOffset>)
    ensures
        rank_sorted(s).len() == s.len(),
    decreases s.len(),
{
    if s.len() == 0 {
    } else {
        lemma_rank_sorted_len(s.drop_last());
        lemma_insert_ranked_len(rank_sorted(s.drop_last()), s.last());
    }
}

/// Every element of `insert_ranked(s, x)` is `x` or an element of `s`.
pub proof fn lemma_insert_ranked_elems(s: Seq<ScoredPointOffset>, x: ScoredPointOffset)
    ensures
        forall|j: int|
            0 <= j < insert_ranked(s, x).len() ==> (#[trigger] insert_ranked(s, x)[j]) == x
                || s.contains(insert_ranked(s, x)[j]),
    decreases s.len(),
{
    lemma_insert_ranked_len(s, x);
    if s.len() == 0 {
    } else if ranks_geq(x, s[0]) {
        assert forall|j: int| 0 <= j < insert_ranked(s, x).len() implies (#[trigger] insert_ranked(
            s,
            x,
        )[j]) == x || s.contains(insert_ranked(s, x)[j]) by {
            if j > 0 {
                assert(insert_ranked(s, x)[j] == s[j - 1]);
                assert(s.contains(s[j - 1]));
            }
        }
    } else {
        lemma_insert_ranked_elems(s.skip(1), x);
        lemma_insert_ranked_len(s.skip(1), x);
        assert forall|j: int| 0 <= j < insert_ranked(s, x).len() implies (#[trigger] insert_ranked(
            s,
            x,
        )[j]) == x || s.contains(insert_ranked(s, x)[j]) by {
            if j == 0 {
                assert(insert_ranked(s, x)[0] == s[0]);
                assert(s.contains(s[0]));
            } else {
                let y = insert_ranked(s, x)[j];
                assert(y == insert_ranked(s.skip(1), x)[j - 1]);
                if y != x {
                    assert(s.skip(1).contains(y));
                    let i = choose|i: int| 0 <= i < s.skip(1).len() && s.skip(1)[i] == y;
                    assert(s[i + 1] == y);
                    assert(s.contains(y));
                }
            }
        }
    }
}

/// Insertion keeps ranking order.
pub proof fn lemma_insert_ranked_sorted(s: Seq<ScoredPointOffset>, x: ScoredPointOffset)
    requires
        ranked(s),
    ensures
        ranked(insert_ranked(s, x)),
    decreases s.len(),
{
    lemma_insert_ranked_len(s, x);
    if s.len() == 0 {
    } else if ranks_geq(x, s[0]) {
        let t = insert_ranked(s, x);
        assert forall|i: int, j: int| 0 <= i < j < t.len() implies #[trigger] ranks_geq(
            t[i],
            t[j],
        ) by {
            assert(t[j] == s[j - 1]);
            if i == 0 {
                if j == 1 {
                } else {
                    assert(ranks_geq(s[0], s[j - 1]));
                }
            } else {
                assert(t[i] == s[i - 1]);
                assert(ranks_geq(s[i - 1], s[j - 1]));
            }
        }
    } else {
        assert forall|i: int, j: int| 0 <= i < j < s.skip(1).len() implies #[trigger] ranks_geq(
            s.skip(1)[i],
            s.skip(1)[j],
        ) by {
            assert(s.skip(1)[i] == s[i + 1]);
            assert(s.skip(1)[j] == s[j + 1]);
            assert(ranks_geq(s[i + 1], s[j + 1]));
        }
        lemma_insert_ranked_sorted(s.skip(1), x);
        lemma_insert_ranked_elems(s.skip(1), x);
        lemma_insert_ranked_len(s.skip(1), x);
        let t = insert_ranked(s, x);
        let u = insert_ranked(s.skip(1), x);
        assert forall|i: int, j: int| 0 <= i < j < t.len() implies #[trigger] ranks_geq(
            t[i],
            t[j],
        ) by {
            if i == 0 {
                assert(t[j] == u[j - 1]);
                if u[j - 1] == x {
                } else {
                    assert(s.skip(1).contains(u[j - 1]));
                    let m = choose|m: int| 0 <= m < s.skip(1).len() && s.skip(1)[m] == u[j - 1];
                    assert(s[m + 1] == u[j - 1]);
                    assert(ranks_geq(s[0], s[m + 1]));
                }
            } else {
                assert(t[i] == u[i - 1]);
                assert(t[j] == u[j - 1]);
                assert(ranks_geq(u[i - 1], u[j - 1]));
            }
        }
    }
}

/// The ranking of a sequence is in ranking order.
pub proof fn lemma_rank_sorted_sorted(s: Seq<ScoredPointOffset>)
    ensures
        ranked(rank_sorted(s)),
    decreases s.len(),
{
    if s.len() == 0 {
    } else {
        lemma_rank_sorted_sorted(s.drop_last());
        lemma_insert_ranked_sorted(rank_sorted(s.drop_last()), s.last());
    }
}

/// Every element of the ranking of `s` is an element of `s`.
pub proof fn lemma_rank_sorted_elems(s: Seq<ScoredPointOffset>)
    ensures
        forall|j: int|
            0 <= j < rank_sorted(s).len() ==> s.contains(#[trigger] rank_sorted(s)[j]),
    decreases s.len(),
{
    if s.len() == 0 {
    } else {
        let d = s.drop_last();
        lemma_rank_sorted_elems(d);
        lemma_rank_sorted_len(d);
        lemma_insert_ranked_elems(rank_sorted(d), s.last());
        assert forall|j: int| 0 <= j < rank_sorted(s).len() implies s.contains(
            #[trigger] rank_sorted(s)[j],
        ) by {
            let y = rank_sorted(s)[j];
            if y == s.last() {
                assert(s[s.len() - 1] == y);
                assert(s.contains(y));
            } else {
                assert(rank_sorted(d).contains(y));
                let m = choose|m: int| 0 <= m < rank_sorted(d).len() && rank_sorted(d)[m] == y;
                assert(d.contains(rank_sorted(d)[m]));
                let i = choose|i: int| 0 <= i < d.len() && d[i] == y;
                assert(s[i] == y);
                assert(s.contains(y));
            }
        }
    }
}

/// Scanning for the insertion point computes `insert_ranked`: with `x`
/// outranked by everything before position `p` and ranking at least position
/// `p` itself, placing `x` at `p` is the ranked insertion.
pub proof fn lemma_insert_ranked_at(s: Seq<ScoredPointOffset>, x: ScoredPointOffset, p: int)
    requires
        0 <= p <= s.len(),
        forall|i: int| 0 <= i < p ==> !ranks_geq(x, #[trigger] s[i]),
        p < s.len() ==> ranks_geq(x, s[p]),
    ensures
        insert_ranked(s, x) == s.take(p) + seq![x] + s.skip(p),
    decreases p,
{
    if p == 0 {
        assert(insert_ranked(s, x) =~= s.take(0) + seq![x] + s.skip(0));
    } else {
        assert forall|i: int| 0 <= i < p - 1 implies !ranks_geq(x, #[trigger] s.skip(1)[i]) by {
            assert(s.skip(1)[i] == s[i + 1]);
        }
        if p - 1 < s.skip(1).len() {
            assert(s.skip(1)[p - 1] == s[p]);
        }
        lemma_insert_ranked_at(s.skip(1), x, p - 1);
        assert(s.skip(1).take(p - 1) =~= s.subrange(1, p));
        assert(s.skip(1).skip(p - 1) =~= s.skip(p));
        assert(insert_ranked(s, x) =~= s.take(p) + seq![x] + s.skip(p));
    }
}

/// Places `x` into the ranked vector `r`, keeping ranking order.
fn insert_sorted(r: &mut Vec<ScoredPointOffset>, x: ScoredPointOffset)
    ensures
        final(r)@ == insert_ranked(old(r)@, x),
{
    let mut p: usize = 0;
    while p < r.len()
        invariant
            p <= r@.len(),
            forall|i: int| 0 <= i < p ==> !ranks_geq(x, #[trigger] r@[i]),
        ensures
            p <= r@.len(),
            forall|i: int| 0 <= i < p ==> !ranks_geq(x, #[trigger] r@[i]),
            p < r@.len() ==> ranks_geq(x, r@[p as int]),
        decreases r@.len() - p,
    {
        let cur = r[p];
        if x.score > cur.score || (x.score == cur.score && x.idx <= cur.idx) {
            break;
        }
        p += 1;
    }
    proof {
        lemma_insert_ranked_at(r@, x, p as int);
    }
    let ghost before = r@;
    r.insert(p, x);
    proof {
        assert(r@ =~= before.take(p as int) + seq![x] + before.skip(p as int));
    }
}

/// The selection utility: the `top` highest-ranking of the given scored
/// candidates, highest first, equal scores broken towards the lower id.
pub fn peek_top_largest_iterable(scores: Vec<ScoredPointOffset>, top: usize) -> (r: Vec<
    ScoredPointOffset,
>)
    ensures
        r@ == top_ranked(scores@, top as int),
        r@.len() == if top <= scores@.len() {
            top as int
        } else {
            scores@.len() as int
        },
        ranked(r@),
        forall|j: int| 0 <= j < r@.len() ==> scores@.contains(#[trigger] r@[j]),
{
    let ghost input = scores@;
    let mut sorted: Vec<ScoredPointOffset> = Vec::new();
    let mut i: usize = 0;
    while i < scores.len()
        invariant
            i <= input.len(),
            scores@ == input,
            sorted@ == rank_sorted(input.take(i as int)),
        decreases input.len() - i,
    {
        insert_sorted(&mut sorted, scores[i]);
        proof {
            assert(input.take(i + 1).drop_last() =~= input.take(i as int));
            assert(input.take(i + 1).last() == input[i as int]);
        }
        i += 1;
    }
    proof {
        assert(input.take(input.len() as int) =~= input);
        lemma_rank_sorted_len(input);
        lemma_rank_sorted_sorted(input);
        lemma_rank_sorted_elems(input);
    }
    let mut r = sorted;
    r.truncate(top);
    proof {
        if top <= input.len() {
            assert(r@ == rank_sorted(input).subrange(0, top as int));
        }
        assert(r@ == top_ranked(input, top as int));
        assert forall|i: int, j: int| 0 <= i < j < r@.len() implies #[trigger] ranks_geq(
            r@[i],
            r@[j],
        ) by {
            assert(r@[i] == rank_sorted(input)[i]);
            assert(r@[j] == rank_sorted(input)[j]);
            assert(ranks_geq(rank_sorted(input)[i], rank_sorted(input)[j]));
        }
        assert forall|j: int| 0 <= j < r@.len() implies input.contains(#[trigger] r@[j]) by {
            assert(r@[j] == rank_sorted(input)[j]);
        }
    }
    r
}

} // verus!
