//! Negative log-likelihood and cross-entropy plans.

use alelyon_compute_kit::loss_ops::{
    LossOp, LossPlan, LossPlanError, LossReduction, MAX_COLS, MAX_ELEMENTS, MAX_ROWS,
};

fn bits(values: &[f32]) -> Vec<u32> {
    values.iter().map(|value| value.to_bits()).collect()
}

fn validate(plan: &LossPlan, primary: &[f32], upstream: &[f32]) -> Result<(), LossPlanError> {
    plan.validate_inputs(&bits(primary), &bits(upstream))
}

#[test]
fn wire_enums_are_checked() {
    for (wire, op) in [
        LossOp::Forward,
        LossOp::Backward,
        LossOp::Reduce,
        LossOp::NllForward,
        LossOp::NllBackward,
    ]
    .into_iter()
    .enumerate()
    {
        assert_eq!(LossOp::try_from(wire as u32), Ok(op));
        assert_eq!(op as u32, wire as u32);
    }
    for (wire, reduction) in [LossReduction::NoReduction, LossReduction::Sum, LossReduction::Mean]
        .into_iter()
        .enumerate()
    {
        assert_eq!(LossReduction::try_from(wire as u32), Ok(reduction));
        assert_eq!(reduction as u32, wire as u32);
    }
    for bad in [5, u32::MAX] {
        assert_eq!(
            LossOp::try_from(bad),
            Err(LossPlanError::OperationOutOfRange)
        );
    }
    for bad in [3, u32::MAX] {
        assert_eq!(
            LossReduction::try_from(bad),
            Err(LossPlanError::ReductionOutOfRange)
        );
    }
}

#[test]
fn bounds_precede_target_allocation_and_support_wide_vocabulary() {
    for (rows, cols) in [
        (0, 1),
        (1, 0),
        (MAX_ROWS + 1, 1),
        (1, MAX_COLS + 1),
        (u32::MAX, u32::MAX),
    ] {
        assert_eq!(
            LossPlan::new(rows, cols, LossOp::Forward, LossReduction::NoReduction, -100, &[]),
            Err(LossPlanError::DimensionOutOfRange)
        );
    }
    let too_many_rows = (MAX_ELEMENTS / MAX_COLS as usize + 1) as u32;
    assert_eq!(
        LossPlan::new(
            too_many_rows,
            MAX_COLS,
            LossOp::Forward,
            LossReduction::NoReduction,
            -100,
            &[]
        ),
        Err(LossPlanError::ElementLimitExceeded)
    );
    let widest_rows = (MAX_ELEMENTS / MAX_COLS as usize) as u32;
    let maximum = LossPlan::new(
        widest_rows,
        MAX_COLS,
        LossOp::Backward,
        LossReduction::Sum,
        -100,
        &vec![i64::from(MAX_COLS) - 1; widest_rows as usize],
    )
    .unwrap();
    assert_eq!(maximum.elements(), MAX_ELEMENTS);
    assert_eq!(maximum.output_len(), MAX_ELEMENTS);
    assert!(maximum.targets().iter().all(|&target| target == 262_143));
    assert_eq!(maximum.targets_len(), widest_rows as usize);
    assert!(LossPlan::new(
        MAX_ROWS,
        1_024,
        LossOp::Forward,
        LossReduction::NoReduction,
        -100,
        &[0; MAX_ROWS as usize],
    )
    .is_ok());
    assert!(LossPlan::new(
        1,
        151_936,
        LossOp::Forward,
        LossReduction::NoReduction,
        -100,
        &[151_935],
    )
    .is_ok());
}

#[test]
fn target_shape_and_index_narrowing_fail_closed() {
    for targets in [&[][..], &[0, 1][..]] {
        assert_eq!(
            LossPlan::new(1, 3, LossOp::Forward, LossReduction::NoReduction, -100, targets),
            Err(LossPlanError::TargetShapeMismatch)
        );
    }
    for bad in [
        -2,
        -1,
        3,
        i64::from(i32::MAX),
        1_i64 << 32,
        i64::MIN,
        i64::MAX,
    ] {
        assert_eq!(
            LossPlan::new(1, 3, LossOp::Forward, LossReduction::NoReduction, -100, &[bad]),
            Err(LossPlanError::TargetOutOfRange)
        );
    }
}

#[test]
fn ignore_is_compared_before_narrowing_even_for_an_in_range_class() {
    for ignored in [i64::MIN, i64::MAX, -1, -100, 0] {
        let mut source = [ignored, 1, ignored, 2];
        let plan = LossPlan::new(
            4,
            3,
            LossOp::Backward,
            LossReduction::Mean,
            ignored,
            &source,
        )
        .unwrap();
        source[0] = 2;
        assert_eq!(source[0], 2);
        assert_eq!(plan.targets(), &[-1, 1, -1, 2]);
        assert_eq!(plan.ignore_index(), ignored);
        assert_eq!(plan.valid_count(), 2);
        assert_eq!(f32::from_bits(plan.normalizer()), 0.5);
        assert_eq!(
            plan.target_bytes(),
            [255, 255, 255, 255, 1, 0, 0, 0, 255, 255, 255, 255, 2, 0, 0, 0]
        );
    }
}

#[test]
fn all_ignored_mean_is_refused_but_none_and_sum_have_defined_zero_paths() {
    for op in [LossOp::Forward, LossOp::Backward, LossOp::Reduce] {
        assert_eq!(
            LossPlan::new(2, 3, op, LossReduction::Mean, -100, &[-100; 2]),
            Err(LossPlanError::MeanHasNoValidTargets)
        );
        for reduction in [LossReduction::NoReduction, LossReduction::Sum] {
            if op == LossOp::Reduce && reduction == LossReduction::NoReduction {
                continue;
            }
            let plan = LossPlan::new(2, 3, op, reduction, -100, &[-100; 2]).unwrap();
            assert_eq!(plan.targets(), &[-1, -1]);
            assert_eq!(plan.valid_count(), 0);
            assert_eq!(f32::from_bits(plan.normalizer()), 1.0);
        }
    }
    assert_eq!(
        LossPlan::new(1, 3, LossOp::Reduce, LossReduction::NoReduction, -100, &[0]),
        Err(LossPlanError::InvalidReduction)
    );
}

#[test]
fn each_operation_has_exact_lengths_grid_and_readonly_metadata() {
    for reduction in [LossReduction::NoReduction, LossReduction::Sum, LossReduction::Mean] {
        for op in [LossOp::Forward, LossOp::Backward, LossOp::Reduce] {
            if op == LossOp::Reduce && reduction == LossReduction::NoReduction {
                continue;
            }
            let plan = LossPlan::new(3, 5, op, reduction, -100, &[0, -100, 4]).unwrap();
            assert_eq!((plan.rows(), plan.cols(), plan.elements()), (3, 5, 15));
            assert_eq!((plan.op(), plan.reduction()), (op, reduction));
            assert_eq!((plan.targets_len(), plan.valid_count()), (3, 2));
            assert_eq!(
                plan.upstream_len(),
                if reduction == LossReduction::NoReduction {
                    3
                } else {
                    1
                }
            );
            assert_eq!(
                plan.primary_len(),
                if op == LossOp::Reduce { 3 } else { 15 }
            );
            assert_eq!(
                plan.output_len(),
                match op {
                    LossOp::Forward | LossOp::NllForward => 3,
                    LossOp::Backward | LossOp::NllBackward => 15,
                    LossOp::Reduce => 1,
                }
            );
            assert_eq!(
                plan.dispatch_groups(),
                if op == LossOp::Reduce {
                    [1, 1, 1]
                } else {
                    [3, 1, 1]
                }
            );
            assert_eq!(
                f32::from_bits(plan.normalizer()),
                if reduction == LossReduction::Mean {
                    0.5
                } else {
                    1.0
                }
            );
        }
    }
}

#[test]
fn push_constants_are_exact_little_endian_words_for_every_operation() {
    for op in [LossOp::Forward, LossOp::Backward, LossOp::Reduce] {
        let plan =
            LossPlan::new(4, 257, op, LossReduction::Mean, -100, &[0, 1, -100, 256]).unwrap();
        let bytes = plan.push_constants();
        assert_eq!(bytes.len(), 20);
        let words: Vec<u32> = bytes
            .chunks_exact(4)
            .map(|word| u32::from_le_bytes(word.try_into().unwrap()))
            .collect();
        assert_eq!(words, [4, 257, op as u32, 2, (1.0_f32 / 3.0).to_bits()]);
        assert_eq!(&bytes[4..8], &[1, 1, 0, 0]);
    }
}

#[test]
fn validate_inputs_refuses_short_long_and_nonfinite_including_dummy_values() {
    for (op, reduction) in [
        (LossOp::Forward, LossReduction::NoReduction),
        (LossOp::Backward, LossReduction::Mean),
        (LossOp::Reduce, LossReduction::Sum),
    ] {
        let plan = LossPlan::new(2, 3, op, reduction, -100, &[0, -100]).unwrap();
        let primary = vec![0.0; plan.primary_len()];
        let upstream = vec![1.0; plan.upstream_len()];
        assert_eq!(validate(&plan, &primary, &upstream), Ok(()));
        for len in [primary.len() - 1, primary.len() + 1] {
            assert_eq!(
                validate(&plan, &vec![0.0; len], &upstream),
                Err(LossPlanError::ShapeMismatch)
            );
        }
        for len in [upstream.len() - 1, upstream.len() + 1] {
            assert_eq!(
                validate(&plan, &primary, &vec![1.0; len]),
                Err(LossPlanError::ShapeMismatch)
            );
        }
        for invalid in [f32::NAN, f32::INFINITY, f32::NEG_INFINITY] {
            let mut bad_primary = primary.clone();
            *bad_primary.last_mut().unwrap() = invalid;
            assert_eq!(
                validate(&plan, &bad_primary, &upstream),
                Err(LossPlanError::NonfiniteInput)
            );
            let mut bad_upstream = upstream.clone();
            *bad_upstream.last_mut().unwrap() = invalid;
            assert_eq!(
                validate(&plan, &primary, &bad_upstream),
                Err(LossPlanError::NonfiniteInput)
            );
        }
    }
}

#[test]
fn nll_plans_read_only_the_target_column_and_admit_masked_log_probabilities() {
    let forward = LossPlan::new(
        3,
        4,
        LossOp::NllForward,
        LossReduction::NoReduction,
        -100,
        &[1, -100, 3],
    )
    .unwrap();
    assert_eq!(
        (
            forward.primary_len(),
            forward.upstream_len(),
            forward.output_len()
        ),
        (12, 3, 3)
    );
    assert_eq!(forward.dispatch_groups(), [3, 1, 1]);
    assert_eq!(forward.targets(), &[1, -1, 3]);
    let backward = LossPlan::new(
        3,
        4,
        LossOp::NllBackward,
        LossReduction::Mean,
        -100,
        &[1, -100, 3],
    )
    .unwrap();
    assert_eq!((backward.upstream_len(), backward.output_len()), (1, 12));
    assert_eq!(f32::from_bits(backward.normalizer()), 0.5);
    let neg = f32::NEG_INFINITY;
    let masked = [
        0.0, neg, neg, neg, -1.0, -1.0, -1.0, -1.0, neg, neg, neg, 0.0,
    ];
    assert!(validate(&forward, &masked, &[0.0; 3]).is_ok());
    let positive = [
        0.0,
        f32::INFINITY,
        0.0,
        0.0,
        -1.0,
        -1.0,
        -1.0,
        -1.0,
        0.0,
        0.0,
        0.0,
        0.0,
    ];
    assert_eq!(
        validate(&forward, &positive, &[0.0; 3]),
        Err(LossPlanError::NonfiniteInput)
    );
    let plain = LossPlan::new(
        3,
        4,
        LossOp::Forward,
        LossReduction::NoReduction,
        -100,
        &[1, -100, 3],
    )
    .unwrap();
    assert_eq!(
        validate(&plain, &masked, &[0.0; 3]),
        Err(LossPlanError::NonfiniteInput)
    );
    assert!(LossPlan::new(
        4_096,
        32_768,
        LossOp::NllBackward,
        LossReduction::Sum,
        -100,
        &[0; 4_096]
    )
    .is_ok());
    assert_eq!(
        u32::from_le_bytes(backward.push_constants()[8..12].try_into().unwrap()),
        4
    );
}
