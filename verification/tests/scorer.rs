use bitvec::vec::BitVec;

use quantized_scorer::bit_flags::DeletionFlags;
use quantized_scorer::encoded_vectors::ScoreTable;
use quantized_scorer::quantized_raw_scorer::QuantizedRawScorer;
use quantized_scorer::raw_scorer::RawScorer;
use quantized_scorer::types::ScoredPointOffset;

fn flags(bits: &[bool]) -> BitVec {
    let mut bv = BitVec::new();
    for &bit in bits {
        bv.push(bit);
    }
    bv
}

fn entry(idx: u32, score: u32) -> ScoredPointOffset {
    ScoredPointOffset { idx, score }
}

#[test]
fn check_vector_filters_both_layers() {
    let vec_deleted = flags(&[false, true, false, false, false]);
    let point_deleted = flags(&[false, false, true, false, false]);
    let table = ScoreTable { scores: vec![1, 2, 3, 4, 5] };
    let scorer = QuantizedRawScorer {
        query: (),
        point_deleted: DeletionFlags { bits: point_deleted.as_bitslice() },
        vec_deleted: DeletionFlags { bits: vec_deleted.as_bitslice() },
        quantized_data: &table,
    };
    assert!(scorer.check_vector(0));
    assert!(!scorer.check_vector(1)); // vector-deleted
    assert!(!scorer.check_vector(2)); // point-deleted
    assert!(scorer.check_vector(3));
    assert!(scorer.check_vector(4));
    // Ids beyond both flag sequences count as not deleted.
    assert!(scorer.check_vector(5));
    assert!(scorer.check_vector(1000));
}

#[test]
fn check_vector_with_uneven_flag_lengths() {
    let vec_deleted = flags(&[true]);
    let point_deleted = flags(&[false, true, false]);
    let table = ScoreTable { scores: vec![10, 10, 10] };
    let scorer = QuantizedRawScorer {
        query: (),
        point_deleted: DeletionFlags { bits: point_deleted.as_bitslice() },
        vec_deleted: DeletionFlags { bits: vec_deleted.as_bitslice() },
        quantized_data: &table,
    };
    assert!(!scorer.check_vector(0)); // vector flag set
    assert!(!scorer.check_vector(1)); // point flag set, vector flag missing
    assert!(scorer.check_vector(2));
    assert!(scorer.check_vector(3));
}

#[test]
fn check_vector_with_both_layers_marked() {
    let vec_deleted = flags(&[true, false]);
    let point_deleted = flags(&[true, false]);
    let table = ScoreTable { scores: vec![10, 10] };
    let scorer = QuantizedRawScorer {
        query: (),
        point_deleted: DeletionFlags { bits: point_deleted.as_bitslice() },
        vec_deleted: DeletionFlags { bits: vec_deleted.as_bitslice() },
        quantized_data: &table,
    };
    assert!(!scorer.check_vector(0));
    assert!(scorer.check_vector(1));
}

#[test]
fn scenario_top_all_excludes_dead() {
    let vec_deleted = flags(&[false, true, false, false, false]);
    let point_deleted = flags(&[false, false, true, false, false]);
    let table = ScoreTable { scores: vec![1, 2, 3, 4, 5] };
    let scorer = QuantizedRawScorer {
        query: (),
        point_deleted: DeletionFlags { bits: point_deleted.as_bitslice() },
        vec_deleted: DeletionFlags { bits: vec_deleted.as_bitslice() },
        quantized_data: &table,
    };
    let top = scorer.peek_top_all(3);
    assert_eq!(top, vec![entry(4, 5), entry(3, 4), entry(0, 1)]);
}

#[test]
fn scenario_batch_early_exit() {
    let vec_deleted = flags(&[false, true, false, false, false]);
    let point_deleted = flags(&[false, false, true, false, false]);
    let table = ScoreTable { scores: vec![1, 2, 3, 4, 5] };
    let scorer = QuantizedRawScorer {
        query: (),
        point_deleted: DeletionFlags { bits: point_deleted.as_bitslice() },
        vec_deleted: DeletionFlags { bits: vec_deleted.as_bitslice() },
        quantized_data: &table,
    };
    let mut output = vec![entry(99, 99), entry(99, 99)];
    let written = scorer.score_points(&[0, 1, 2, 3, 4], &mut output);
    assert_eq!(written, 2);
    // Id 4 is live but the buffer was full before it was considered.
    assert_eq!(output, vec![entry(0, 1), entry(3, 4)]);
}

#[test]
fn batch_zero_capacity_writes_nothing() {
    let vec_deleted = flags(&[false, false]);
    let point_deleted = flags(&[false, false]);
    let table = ScoreTable { scores: vec![8, 9] };
    let scorer = QuantizedRawScorer {
        query: (),
        point_deleted: DeletionFlags { bits: point_deleted.as_bitslice() },
        vec_deleted: DeletionFlags { bits: vec_deleted.as_bitslice() },
        quantized_data: &table,
    };
    let mut output: Vec<ScoredPointOffset> = Vec::new();
    let written = scorer.score_points(&[0, 1], &mut output);
    assert_eq!(written, 0);
    assert!(output.is_empty());
}

#[test]
fn batch_keeps_input_order_and_tail() {
    let vec_deleted = flags(&[false, true, false, false, false]);
    let point_deleted = flags(&[false, false, true, false, false]);
    let table = ScoreTable { scores: vec![1, 2, 3, 4, 5] };
    let scorer = QuantizedRawScorer {
        query: (),
        point_deleted: DeletionFlags { bits: point_deleted.as_bitslice() },
        vec_deleted: DeletionFlags { bits: vec_deleted.as_bitslice() },
        quantized_data: &table,
    };
    let mut output = vec![entry(7, 7); 5];
    let written = scorer.score_points(&[4, 1, 0, 2, 3], &mut output);
    assert_eq!(written, 3);
    // Results mirror candidate order (4, 0, 3), with no re-sorting, and the
    // slots past the written prefix keep their old values.
    assert_eq!(
        output,
        vec![entry(4, 5), entry(0, 1), entry(3, 4), entry(7, 7), entry(7, 7)]
    );
}

#[test]
fn top_all_bounds() {
    let vec_deleted = flags(&[false, true, false, false, false]);
    let point_deleted = flags(&[false, false, true, false, false]);
    let table = ScoreTable { scores: vec![1, 2, 3, 4, 5] };
    let scorer = QuantizedRawScorer {
        query: (),
        point_deleted: DeletionFlags { bits: point_deleted.as_bitslice() },
        vec_deleted: DeletionFlags { bits: vec_deleted.as_bitslice() },
        quantized_data: &table,
    };
    assert_eq!(scorer.peek_top_all(0), vec![]);
    // Fewer live points than requested: all of them, still ranked.
    let all = scorer.peek_top_all(10);
    assert_eq!(all, vec![entry(4, 5), entry(3, 4), entry(0, 1)]);
}

#[test]
fn top_iter_subset_consistent() {
    let vec_deleted = flags(&[false, true, false, false, false]);
    let point_deleted = flags(&[false, false, true, false, false]);
    let table = ScoreTable { scores: vec![1, 2, 3, 4, 5] };
    let scorer = QuantizedRawScorer {
        query: (),
        point_deleted: DeletionFlags { bits: point_deleted.as_bitslice() },
        vec_deleted: DeletionFlags { bits: vec_deleted.as_bitslice() },
        quantized_data: &table,
    };
    // The caller's candidate filter and the deletion filter both apply.
    let top = scorer.peek_top_iter(&[4, 2, 0], 10);
    assert_eq!(top, vec![entry(4, 5), entry(0, 1)]);
    for candidate in &top {
        assert!([4u32, 2, 0].contains(&candidate.idx));
        assert!(scorer.check_vector(candidate.idx));
    }
}

#[test]
fn top_ties_prefer_lower_id() {
    let vec_deleted = flags(&[false, false, false, false]);
    let point_deleted = flags(&[false, false, false, false]);
    let table = ScoreTable { scores: vec![7, 7, 7, 7] };
    let scorer = QuantizedRawScorer {
        query: (),
        point_deleted: DeletionFlags { bits: point_deleted.as_bitslice() },
        vec_deleted: DeletionFlags { bits: vec_deleted.as_bitslice() },
        quantized_data: &table,
    };
    let top = scorer.peek_top_all(3);
    assert_eq!(top, vec![entry(0, 7), entry(1, 7), entry(2, 7)]);
}

#[test]
fn score_point_is_idempotent_and_unfiltered() {
    let vec_deleted = flags(&[false, true, false, false, false]);
    let point_deleted = flags(&[false, false, true, false, false]);
    let table = ScoreTable { scores: vec![1, 2, 3, 4, 5] };
    let scorer = QuantizedRawScorer {
        query: (),
        point_deleted: DeletionFlags { bits: point_deleted.as_bitslice() },
        vec_deleted: DeletionFlags { bits: vec_deleted.as_bitslice() },
        quantized_data: &table,
    };
    // Raw scoring ignores deletion state; repeated calls are bit-identical.
    let first = scorer.score_point(1);
    let second = scorer.score_point(1);
    assert_eq!(first, 2);
    assert_eq!(first, second);
    // A point beyond the table scores the table's default.
    assert_eq!(scorer.score_point(9), 0);
}

#[test]
fn score_internal_pairs_stored_points() {
    let vec_deleted = flags(&[false, false, false]);
    let point_deleted = flags(&[false, false, false]);
    let table = ScoreTable { scores: vec![6, 2, 9] };
    let scorer = QuantizedRawScorer {
        query: (),
        point_deleted: DeletionFlags { bits: point_deleted.as_bitslice() },
        vec_deleted: DeletionFlags { bits: vec_deleted.as_bitslice() },
        quantized_data: &table,
    };
    // The table store pairs two points by the smaller of their entries.
    assert_eq!(scorer.score_internal(0, 2), 6);
    assert_eq!(scorer.score_internal(1, 2), 2);
    assert_eq!(scorer.score_internal(2, 2), 9);
}

#[test]
fn batch_capacity_exactly_filled() {
    let vec_deleted = flags(&[false, true, false, false, false]);
    let point_deleted = flags(&[false, false, true, false, false]);
    let table = ScoreTable { scores: vec![1, 2, 3, 4, 5] };
    let scorer = QuantizedRawScorer {
        query: (),
        point_deleted: DeletionFlags { bits: point_deleted.as_bitslice() },
        vec_deleted: DeletionFlags { bits: vec_deleted.as_bitslice() },
        quantized_data: &table,
    };
    let mut output = vec![entry(0, 0); 3];
    let written = scorer.score_points(&[0, 1, 2, 3, 4], &mut output);
    assert_eq!(written, 3);
    assert_eq!(output, vec![entry(0, 1), entry(3, 4), entry(4, 5)]);
}

#[test]
fn duplicate_candidates_are_scored_each_time() {
    let vec_deleted = flags(&[false, false]);
    let point_deleted = flags(&[false, false]);
    let table = ScoreTable { scores: vec![3, 8] };
    let scorer = QuantizedRawScorer {
        query: (),
        point_deleted: DeletionFlags { bits: point_deleted.as_bitslice() },
        vec_deleted: DeletionFlags { bits: vec_deleted.as_bitslice() },
        quantized_data: &table,
    };
    let mut output = vec![entry(9, 9); 4];
    let written = scorer.score_points(&[1, 1, 0], &mut output);
    assert_eq!(written, 3);
    assert_eq!(output[..3], [entry(1, 8), entry(1, 8), entry(0, 3)]);
    let top = scorer.peek_top_iter(&[1, 1], 5);
    assert_eq!(top, vec![entry(1, 8), entry(1, 8)]);
}
