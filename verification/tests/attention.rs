//! Causal softmax plans: dimensions, lengths and the input contract.

use alelyon_compute_kit::attention_ops::{
    CausalSoftmaxOp, CausalSoftmaxPlan, CausalSoftmaxPlanError, MAX_ELEMENTS, MAX_ROWS, MAX_SEQ,
};

/// How far a row's probability mass may be from one.
const PROBABILITY_MASS_TOLERANCE: f64 = 2.0e-5;

fn bits(values: &[f32]) -> Vec<u32> {
    values.iter().map(|value| value.to_bits()).collect()
}

/// Whether each row's unmasked prefix sums to one.
fn mass_is_one(plan: &CausalSoftmaxPlan, primary: &[f32]) -> Vec<bool> {
    let seq = plan.seq() as usize;
    (0..plan.rows() as usize)
        .map(|row| {
            let start = row * seq;
            let mass: f64 = primary
                .iter()
                .skip(start)
                .take(row % seq + 1)
                .map(|&value| f64::from(value))
                .sum();
            (mass - 1.0).abs() <= PROBABILITY_MASS_TOLERANCE
        })
        .collect()
}

fn validate(
    plan: &CausalSoftmaxPlan,
    primary: &[f32],
    upstream: &[f32],
    auxiliary: &[f32],
) -> Result<(), CausalSoftmaxPlanError> {
    plan.validate_inputs(
        &bits(primary),
        &bits(upstream),
        &bits(auxiliary),
        &mass_is_one(plan, primary),
    )
}

fn probabilities(plan: &CausalSoftmaxPlan) -> Vec<f32> {
    let mut values = vec![0.0; plan.elements()];
    for (row_index, row) in values.chunks_exact_mut(plan.seq() as usize).enumerate() {
        let prefix_len = row_index % plan.seq() as usize + 1;
        row[..prefix_len].fill(1.0 / prefix_len as f32);
    }
    values
}

#[test]
fn plans_exact_lengths_geometry_and_little_endian_push_bytes() {
    for op in [CausalSoftmaxOp::Forward, CausalSoftmaxOp::Backward] {
        let plan = CausalSoftmaxPlan::new(2, 3, 7, op).unwrap();
        assert_eq!(
            (plan.batch(), plan.heads(), plan.seq(), plan.op()),
            (2, 3, 7, op)
        );
        assert_eq!((plan.rows(), plan.elements()), (42, 294));
        assert_eq!((plan.primary_len(), plan.output_len()), (294, 294));
        assert_eq!(plan.auxiliary_len(), 1);
        assert_eq!(
            plan.upstream_len(),
            if op == CausalSoftmaxOp::Forward {
                1
            } else {
                294
            }
        );
        assert_eq!(plan.dispatch_groups(), [42, 1, 1]);
        assert_eq!(
            plan.push_constants(),
            [2, 0, 0, 0, 3, 0, 0, 0, 7, 0, 0, 0, op as u8, 0, 0, 0]
        );
    }
    let plan = CausalSoftmaxPlan::new(1, 1, 1, CausalSoftmaxOp::Backward).unwrap();
    assert_eq!(plan.dispatch_groups(), [1, 1, 1]);
    assert_eq!(
        (plan.primary_len(), plan.upstream_len(), plan.output_len()),
        (1, 1, 1)
    );
    assert!(validate(&plan, &[1.0], &[-17.0], &[2.0]).is_ok());
}

#[test]
fn operation_tags_are_closed_and_errors_are_named() {
    assert_eq!(CausalSoftmaxOp::try_from(0), Ok(CausalSoftmaxOp::Forward));
    assert_eq!(CausalSoftmaxOp::try_from(1), Ok(CausalSoftmaxOp::Backward));
    for tag in [2, 3, u32::MAX] {
        assert_eq!(
            CausalSoftmaxOp::try_from(tag),
            Err(CausalSoftmaxPlanError::OperationOutOfRange)
        );
    }
    assert_eq!(
        CausalSoftmaxPlanError::DimensionOverflow.name(),
        "causal-softmax-dimension-overflow"
    );
    assert_eq!(
        CausalSoftmaxPlanError::InvalidMaskedProbability.name(),
        "causal-softmax-invalid-masked-probability"
    );
}

#[test]
fn dimensions_caps_and_full_width_products_fail_closed() {
    let op = CausalSoftmaxOp::Forward;
    for (batch, heads, seq) in [
        (0, 1, 1),
        (1, 0, 1),
        (1, 1, 0),
        (1, 1, MAX_SEQ + 1),
        (MAX_ROWS + 1, 1, 1),
        (1, MAX_ROWS + 1, 1),
        (u32::MAX, 1, 1),
    ] {
        assert_eq!(
            CausalSoftmaxPlan::new(batch, heads, seq, op),
            Err(CausalSoftmaxPlanError::DimensionOutOfRange)
        );
    }
    assert_eq!(
        CausalSoftmaxPlan::new(1, 2, MAX_SEQ, op),
        Err(CausalSoftmaxPlanError::ElementLimitExceeded)
    );
    for (batch, heads, seq) in [(u32::MAX, u32::MAX, 2), (2_000_000_000, 2_000_000_000, 3)] {
        assert_eq!(
            CausalSoftmaxPlan::new(batch, heads, seq, op),
            Err(CausalSoftmaxPlanError::DimensionOverflow)
        );
    }
    for (batch, heads, seq) in [
        (MAX_ROWS, 1, 1),
        (1, MAX_ROWS, 1),
        (4, 4, 256),
        (1, 1, MAX_SEQ),
    ] {
        let plan = CausalSoftmaxPlan::new(batch, heads, seq, op).unwrap();
        assert!(plan.rows() <= MAX_ROWS && plan.elements() <= MAX_ELEMENTS);
    }
    let maximum = CausalSoftmaxPlan::new(4, 4, 256, op).unwrap();
    assert_eq!(
        (maximum.rows(), maximum.elements()),
        (MAX_ROWS, MAX_ELEMENTS)
    );
    assert_eq!(
        CausalSoftmaxPlan::new(1, 1, MAX_SEQ, op)
            .unwrap()
            .elements(),
        MAX_ELEMENTS
    );
}

#[test]
fn every_binding_requires_its_exact_length_before_value_checks() {
    for op in [CausalSoftmaxOp::Forward, CausalSoftmaxOp::Backward] {
        let plan = CausalSoftmaxPlan::new(1, 1, 3, op).unwrap();
        let primary = if op == CausalSoftmaxOp::Backward {
            probabilities(&plan)
        } else {
            vec![0.0; plan.primary_len()]
        };
        let upstream = vec![0.0; plan.upstream_len()];
        assert!(validate(&plan, &primary, &upstream, &[0.0]).is_ok());
        for binding in 0..3 {
            let bindings = [primary.clone(), upstream.clone(), vec![0.0]];
            for length in [bindings[binding].len() - 1, bindings[binding].len() + 1] {
                let mut malformed = bindings.clone();
                malformed[binding] = vec![f32::NAN; length];
                assert_eq!(
                    validate(&plan, &malformed[0], &malformed[1], &malformed[2]),
                    Err(CausalSoftmaxPlanError::ShapeMismatch)
                );
            }
        }
    }
}

#[test]
fn nonfinite_values_are_refused_including_masked_and_dummy_inputs() {
    for op in [CausalSoftmaxOp::Forward, CausalSoftmaxOp::Backward] {
        let plan = CausalSoftmaxPlan::new(1, 1, 2, op).unwrap();
        for bad in [f32::NAN, f32::INFINITY, f32::NEG_INFINITY] {
            for binding in 0..3 {
                let primary = if op == CausalSoftmaxOp::Backward {
                    probabilities(&plan)
                } else {
                    vec![0.0; plan.primary_len()]
                };
                let mut values = [primary, vec![0.0; plan.upstream_len()], vec![0.0]];
                let index = usize::from(values[binding].len() > 1);
                values[binding][index] = bad;
                assert_eq!(
                    validate(&plan, &values[0], &values[1], &values[2]),
                    Err(CausalSoftmaxPlanError::NonfiniteInput)
                );
            }
        }
    }
}

#[test]
fn backward_causal_geometry_restarts_for_every_batch_and_head() {
    let plan = CausalSoftmaxPlan::new(2, 3, 4, CausalSoftmaxOp::Backward).unwrap();
    let values = probabilities(&plan);
    let upstream = vec![2.0; plan.upstream_len()];
    assert!(validate(&plan, &values, &upstream, &[0.0]).is_ok());
    for row_index in 0..plan.rows() as usize {
        let query = row_index % plan.seq() as usize;
        let base = row_index * plan.seq() as usize;
        if query + 1 < plan.seq() as usize {
            let mut wrong_mask = values.clone();
            wrong_mask[base + query + 1] = f32::from_bits(1);
            assert_eq!(
                validate(&plan, &wrong_mask, &upstream, &[0.0]),
                Err(CausalSoftmaxPlanError::InvalidMaskedProbability)
            );
        }
        let mut wrong_mass = values.clone();
        wrong_mass[base] *= 0.5;
        assert_eq!(
            validate(&plan, &wrong_mass, &upstream, &[0.0]),
            Err(CausalSoftmaxPlanError::InvalidProbability)
        );
    }
}

#[test]
fn backward_mask_requires_positive_zero_bits() {
    let plan = CausalSoftmaxPlan::new(1, 1, 2, CausalSoftmaxOp::Backward).unwrap();
    for bad in [-0.0, f32::from_bits(1), 0.25] {
        assert_eq!(
            validate(&plan, &[1.0, bad, 0.5, 0.5], &[0.0; 4], &[0.0]),
            Err(CausalSoftmaxPlanError::InvalidMaskedProbability)
        );
    }
    assert!(validate(&plan, &[1.0, 0.0, -0.0, 1.0], &[0.0; 4], &[0.0]).is_ok());
}

#[test]
fn backward_probability_range_and_prefix_mass_are_enforced() {
    let plan = CausalSoftmaxPlan::new(1, 1, 2, CausalSoftmaxOp::Backward).unwrap();
    for last in [
        [-f32::EPSILON, 1.0],
        [1.0 + f32::EPSILON, 0.0],
        [0.0, 0.0],
        [0.5, 0.5 - 3.0e-5],
    ] {
        assert_eq!(
            validate(&plan, &[1.0, 0.0, last[0], last[1]], &[0.0; 4], &[0.0]),
            Err(CausalSoftmaxPlanError::InvalidProbability)
        );
    }
    for delta in [-1.0e-5, 0.0, 1.0e-5] {
        assert!(validate(&plan, &[1.0, 0.0, 0.5, 0.5 + delta], &[0.0; 4], &[0.0]).is_ok());
    }
    let largest = CausalSoftmaxPlan::new(1, 1, MAX_SEQ, CausalSoftmaxOp::Backward).unwrap();
    assert!(validate(
        &largest,
        &probabilities(&largest),
        &vec![0.0; largest.upstream_len()],
        &[0.0]
    )
    .is_ok());
}

#[test]
fn forward_accepts_finite_extremes_without_probability_or_mask_semantics() {
    let plan = CausalSoftmaxPlan::new(1, 1, 2, CausalSoftmaxOp::Forward).unwrap();
    assert!(validate(
        &plan,
        &[f32::MAX, -f32::MAX, -0.0, f32::from_bits(1)],
        &[f32::MIN],
        &[1.0]
    )
    .is_ok());
}
