//! Embedding plans: the gather, its backward, and the images both upload.

use alelyon_compute_kit::embedding_ops::{
    checked_elements, EmbeddingOp, EmbeddingPlan, EmbeddingPlanError, MAX_DIM, MAX_ELEMENTS, MAX_N,
    MAX_VOCAB, WORKGROUP_SIZE,
};

#[test]
fn operation_codes_refuse_unknown_values() {
    assert_eq!(EmbeddingOp::try_from(0), Ok(EmbeddingOp::Gather));
    assert_eq!(EmbeddingOp::try_from(1), Ok(EmbeddingOp::Backward));
    for value in [2, u32::MAX] {
        assert_eq!(
            EmbeddingOp::try_from(value),
            Err(EmbeddingPlanError::OperationOutOfRange)
        );
    }
}

#[test]
fn dimensions_and_both_element_bounds_precede_id_validation() {
    for (n, vocab, dim) in [
        (0, 1, 1),
        (1, 0, 1),
        (1, 1, 0),
        (MAX_N + 1, 1, 1),
        (1, MAX_VOCAB + 1, 1),
        (1, 1, MAX_DIM + 1),
        (u32::MAX, u32::MAX, u32::MAX),
    ] {
        assert_eq!(
            EmbeddingPlan::new(n, vocab, dim, EmbeddingOp::Gather, &[]),
            Err(EmbeddingPlanError::DimensionOutOfRange)
        );
    }
    let reachable = EmbeddingPlan::new(1, MAX_VOCAB, MAX_DIM, EmbeddingOp::Backward, &[0]);
    assert_eq!(reachable, Err(EmbeddingPlanError::ElementLimitExceeded));
    assert!(MAX_VOCAB as usize * MAX_DIM as usize > MAX_ELEMENTS);
    assert!(MAX_VOCAB as u64 * MAX_DIM as u64 <= u32::MAX as u64 + 1);
    assert!(MAX_N as u64 * MAX_DIM as u64 <= u32::MAX as u64 + 1);
    assert_eq!(
        checked_elements(MAX_VOCAB, MAX_DIM + 1),
        Err(EmbeddingPlanError::ElementLimitExceeded)
    );
    let widest_vocab = MAX_ELEMENTS as u32 / MAX_DIM;
    let ids = vec![i64::from(widest_vocab) - 1; MAX_N as usize];
    let largest_table =
        EmbeddingPlan::new(MAX_N, widest_vocab, MAX_DIM, EmbeddingOp::Gather, &ids).unwrap();
    assert_eq!(largest_table.primary_len(), MAX_ELEMENTS);
    assert_eq!(
        largest_table.output_len(),
        MAX_N as usize * MAX_DIM as usize
    );
    let densest_gradient =
        EmbeddingPlan::new(MAX_N, widest_vocab, MAX_DIM, EmbeddingOp::Backward, &ids).unwrap();
    assert_eq!(densest_gradient.output_len(), MAX_ELEMENTS);
    assert_eq!(
        densest_gradient.dispatch_groups(),
        [(MAX_ELEMENTS as u32).div_ceil(WORKGROUP_SIZE), 1, 1]
    );
    assert!(
        EmbeddingPlan::new(1_024, 151_936, 512, EmbeddingOp::Backward, &[7; 1_024]).is_ok()
    );
    assert!(EmbeddingPlan::new(1_024, 151_936, 512, EmbeddingOp::Gather, &[7; 1_024]).is_ok());
    assert!(EmbeddingPlan::new(4_096, 32_768, 768, EmbeddingOp::Backward, &[7; 4_096]).is_ok());
    assert!(EmbeddingPlan::new(1, 1, MAX_DIM, EmbeddingOp::Gather, &[0]).is_ok());
}

#[test]
fn indices_require_exact_length_and_original_i64_range() {
    for ids in [&[][..], &[0, 1][..]] {
        assert_eq!(
            EmbeddingPlan::new(1, 3, 2, EmbeddingOp::Gather, ids),
            Err(EmbeddingPlanError::IndexShapeMismatch)
        );
    }
    for bad in [-1, 3, i64::MIN, i64::MAX, 1_i64 << 32, (1_i64 << 32) + 1] {
        assert_eq!(
            EmbeddingPlan::new(1, 3, 2, EmbeddingOp::Backward, &[bad]),
            Err(EmbeddingPlanError::IndexOutOfRange)
        );
    }
    assert_eq!(
        EmbeddingPlan::new(2, 3, 2, EmbeddingOp::Gather, &[0, 2])
            .unwrap()
            .ids(),
        &[0, 2]
    );
}

#[test]
fn repeated_ids_form_exact_stable_csr_with_empty_buckets() {
    let plan = EmbeddingPlan::new(6, 5, 3, EmbeddingOp::Backward, &[3, 1, 3, 0, 1, 3]).unwrap();
    assert_eq!(plan.ids(), &[3, 1, 3, 0, 1, 3]);
    assert_eq!(plan.offsets(), &[0, 1, 3, 3, 6, 6]);
    assert_eq!(plan.positions(), &[3, 1, 4, 0, 2, 5]);
    for vocab_id in 0..plan.vocab() as usize {
        let bucket = &plan.positions()
            [plan.offsets()[vocab_id] as usize..plan.offsets()[vocab_id + 1] as usize];
        assert!(bucket.windows(2).all(|pair| pair[0] < pair[1]));
        assert!(bucket
            .iter()
            .all(|&position| plan.ids()[position as usize] == vocab_id as u32));
    }
    let mut all_positions = plan.positions().to_vec();
    all_positions.sort_unstable();
    assert_eq!(all_positions, [0, 1, 2, 3, 4, 5]);
}

#[test]
fn one_repeated_id_keeps_every_position_in_original_order() {
    let plan = EmbeddingPlan::new(5, 4, 1, EmbeddingOp::Backward, &[2; 5]).unwrap();
    assert_eq!(plan.offsets(), &[0, 0, 0, 5, 5]);
    assert_eq!(plan.positions(), &[0, 1, 2, 3, 4]);
    let one = EmbeddingPlan::new(1, 1, 1, EmbeddingOp::Backward, &[0]).unwrap();
    assert_eq!(one.offsets(), &[0, 1]);
    assert_eq!(one.positions(), &[0]);
}

#[test]
fn caller_mutation_cannot_change_owned_ids_or_csr() {
    let mut ids = [2, 0, 2, 1];
    let plan = EmbeddingPlan::new(4, 3, 1, EmbeddingOp::Gather, &ids).unwrap();
    ids.fill(0);
    assert_eq!(ids, [0; 4]);
    assert_eq!(plan.ids(), &[2, 0, 2, 1]);
    assert_eq!(plan.offsets(), &[0, 1, 2, 4]);
    assert_eq!(plan.positions(), &[1, 3, 0, 2]);
    let mut upload = plan.index_bytes();
    upload.fill(255);
    assert_ne!(upload, plan.index_bytes());
}

#[test]
fn byte_images_and_metadata_match_each_operation() {
    for op in [EmbeddingOp::Gather, EmbeddingOp::Backward] {
        let plan = EmbeddingPlan::new(3, 2, 257, op, &[1, 0, 1]).unwrap();
        assert_eq!(
            (plan.n(), plan.vocab(), plan.dim(), plan.op()),
            (3, 2, 257, op)
        );
        assert_eq!(&plan.push_constants()[8..12], &[1, 1, 0, 0]);
        assert_eq!(
            plan.push_constants(),
            [3, 0, 0, 0, 2, 0, 0, 0, 1, 1, 0, 0, op as u8, 0, 0, 0]
        );
        match op {
            EmbeddingOp::Gather => {
                assert_eq!((plan.primary_len(), plan.output_len()), (514, 771));
                assert_eq!(plan.dispatch_groups(), [13, 1, 1]);
                assert_eq!(plan.index_bytes(), [1, 0, 0, 0, 0, 0, 0, 0, 1, 0, 0, 0]);
                assert_eq!(plan.offset_bytes(), [0, 0, 0, 0]);
            }
            EmbeddingOp::Backward => {
                assert_eq!((plan.primary_len(), plan.output_len()), (771, 514));
                assert_eq!(plan.dispatch_groups(), [9, 1, 1]);
                assert_eq!(plan.index_bytes(), [1, 0, 0, 0, 0, 0, 0, 0, 2, 0, 0, 0]);
                assert_eq!(plan.offset_bytes(), [0, 0, 0, 0, 1, 0, 0, 0, 3, 0, 0, 0]);
            }
        }
    }
}

#[test]
fn grids_cover_exact_and_partial_workgroups() {
    for (len, groups) in [(1, 1), (63, 1), (64, 1), (65, 2)] {
        let gather =
            EmbeddingPlan::new(len, 1, 1, EmbeddingOp::Gather, &vec![0; len as usize]).unwrap();
        let backward = EmbeddingPlan::new(1, len, 1, EmbeddingOp::Backward, &[0]).unwrap();
        assert_eq!(gather.dispatch_groups(), [groups, 1, 1]);
        assert_eq!(backward.dispatch_groups(), [groups, 1, 1]);
    }
}

#[test]
fn input_lengths_and_every_nonfinite_value_are_refused() {
    for op in [EmbeddingOp::Gather, EmbeddingOp::Backward] {
        let plan = EmbeddingPlan::new(2, 3, 2, op, &[0, 2]).unwrap();
        assert_eq!(plan.validate_inputs(&vec![0.0f32.to_bits(); plan.primary_len()]), Ok(()));
        for len in [plan.primary_len() - 1, plan.primary_len() + 1] {
            assert_eq!(
                plan.validate_inputs(&vec![0.0f32.to_bits(); len]),
                Err(EmbeddingPlanError::ShapeMismatch)
            );
        }
        for bad in [f32::NAN, f32::INFINITY, f32::NEG_INFINITY] {
            let mut input = vec![0.0f32.to_bits(); plan.primary_len()];
            *input.last_mut().unwrap() = bad.to_bits();
            assert_eq!(
                plan.validate_inputs(&input),
                Err(EmbeddingPlanError::NonfiniteInput)
            );
        }
    }
}
