//! Reduction plans: kernels, splits, encodings and element order.

use alelyon_compute_kit::reduce_ops::{
    push_bytes, Finish, ReduceKernel, ReduceOp, ReducePass, ReducePlan, ReducePlanError, ReduceView,
    CHUNK, NONE_DIM, PUSH_BYTES, PUSH_BYTES_V2,
};

fn f(value: f32) -> u32 {
    value.to_bits()
}

/// The reduction in f64, reading the input at the plan's addresses in order.
fn reference(plan: &ReducePlan, input: &[f32]) -> Vec<f64> {
    assert!(input.len() >= plan.first().input_len());
    (0..plan.kept_count())
        .map(|kept| {
            let values: Vec<f64> = (0..plan.reduced_count())
                .map(|reduced| f64::from(input[plan.address(kept, reduced) as usize]))
                .collect();
            let total = match plan.op() {
                ReduceOp::Sum => values.iter().sum(),
                ReduceOp::SumOfSquares => values.iter().map(|x| x * x).sum(),
                ReduceOp::Amax if values.iter().any(|x| x.is_nan()) => f64::NAN,
                ReduceOp::Amax => values.iter().copied().fold(f64::NEG_INFINITY, f64::max),
            };
            match plan.finish() {
                Finish::NoFinish => total,
                Finish::Scale => total * f64::from(f32::from_bits(plan.scale())),
                Finish::Sqrt => total.sqrt(),
            }
        })
        .collect()
}

fn words(pass: &ReducePass) -> Vec<u32> {
    pass.push_constants()
        .chunks_exact(4)
        .map(|b| u32::from_le_bytes([b[0], b[1], b[2], b[3]]))
        .collect()
}

#[test]
fn last_dim_sum_is_one_pass_with_dense_kept_output() {
    let view = ReduceView::new(&[1, 128, 768], &[98_304, 768, 1], 0).unwrap();
    let plan = ReducePlan::new(view, 0b100, ReduceOp::Sum, Finish::NoFinish, f(1.0), 98_304).unwrap();
    assert_eq!(
        (plan.kept_count(), plan.reduced_count(), plan.splits()),
        (128, 768, 1)
    );
    assert!(plan.second().is_none());
    assert_eq!(plan.first().dispatch_groups(), [128, 1, 1]);
    assert_eq!(plan.first().output_len(), 128);
    assert_eq!(plan.first().input_len(), 98_304);
    let w = words(plan.first());
    assert_eq!(&w[..4], &[0, 0, 3, 0b100]);
    assert_eq!(&w[4..7], &[1, 128, 768]);
    assert_eq!(&w[10..13], &[98_304, 768, 1]);
    assert_eq!(&w[16..19], &[0, 1, 768]);
}

#[test]
fn leading_dims_sum_keeps_the_trailing_dim_on_v2() {
    let view = ReduceView::new(&[1, 128, 768], &[98_304, 768, 1], 0).unwrap();
    let plan = ReducePlan::new(view, 0b011, ReduceOp::Sum, Finish::NoFinish, f(1.0), 98_304).unwrap();
    assert_eq!((plan.kept_count(), plan.reduced_count()), (768, 128));
    let first = plan.first();
    assert_eq!(first.kernel(), ReduceKernel::V2);
    assert_eq!(first.tile_cols(), 16);
    assert_eq!(first.dispatch_groups(), [48, 1, 1]);
    assert_eq!(first.push_constants().len(), PUSH_BYTES_V2);
    let w = words(first);
    assert_eq!(&w[..20], &words_v1(&view, 0b011, 1, 128)[..]);
    assert_eq!(&w[20..24], &[2, NONE_DIM, 16, 1]);
}

fn words_v1(view: &ReduceView, mask: u32, splits: u32, chunk: u32) -> Vec<u32> {
    push_bytes(ReduceOp::Sum, Finish::NoFinish, view, mask, splits, chunk, f(1.0))
        .chunks_exact(4)
        .map(|b| u32::from_le_bytes([b[0], b[1], b[2], b[3]]))
        .collect()
}

#[test]
fn the_registered_passes_reductions_select_the_kernel_the_law_says() {
    let sum = |shape: &[u32], stride: &[u32], mask: u32| {
        let view = ReduceView::new(shape, stride, 0).unwrap();
        let cap = view.last_address() + 1;
        ReducePlan::new(view, mask, ReduceOp::Sum, Finish::NoFinish, f(1.0), cap).unwrap()
    };
    let p = sum(&[1, 1024, 512], &[524_288, 512, 1], 0b011);
    assert_eq!(
        (p.first().kernel(), p.first().tile_cols()),
        (ReduceKernel::V2, 16)
    );
    assert_eq!(p.first().dispatch_groups(), [32, 1, 1]);
    let p = sum(&[1, 1024, 512], &[524_288, 512, 1], 0b100);
    assert_eq!(p.first().kernel(), ReduceKernel::V1);
    assert_eq!(p.first().dispatch_groups(), [1024, 1, 1]);
    let p = sum(
        &[1, 4, 2, 1024, 64],
        &[524_288, 131_072, 65_536, 64, 1],
        0b00100,
    );
    let f = p.first();
    assert_eq!((f.kernel(), f.tile_cols()), (ReduceKernel::V2, 256));
    assert_eq!(
        f.dispatch_groups(),
        [256, 1, 4],
        "65,536 kept across 256 tiles, 4 outer"
    );
    assert_eq!(&words(f)[20..24], &[4, 3, 256, 4]);
    let p = sum(
        &[1, 4, 2, 1024, 48],
        &[393_216, 98_304, 49_152, 1, 1024],
        0b00100,
    );
    let f = p.first();
    assert_eq!((f.kernel(), f.tile_cols()), (ReduceKernel::V2, 256));
    assert_eq!(f.dispatch_groups(), [192, 1, 4]);
    assert_eq!(
        &words(f)[20..24],
        &[3, 4, 256, 4],
        "dim 3 across the lanes, dim 4 flattened on it"
    );
    let p = sum(
        &[1, 4, 2, 1024, 16],
        &[131_072, 32_768, 16_384, 1, 1024],
        0b00100,
    );
    assert_eq!(p.first().dispatch_groups(), [64, 1, 4]);
    let p = sum(&[1, 1024, 8, 48], &[393_216, 48, 49_152, 1], 0b0111);
    assert_eq!(p.first().kernel(), ReduceKernel::V1);
    let p = sum(&[1, 1024, 4, 16], &[65_536, 16, 16_384, 1], 0b0111);
    assert_eq!(p.first().kernel(), ReduceKernel::V1);
    let p = sum(
        &[1, 8, 1024, 1024],
        &[8_388_608, 1_048_576, 1024, 1],
        0b1100,
    );
    assert_eq!(p.first().kernel(), ReduceKernel::V1);
    assert_eq!(p.splits(), 16);
    assert_eq!(p.second().unwrap().kernel(), ReduceKernel::V1);
    let p = sum(&[1, 128, 4, 64], &[32_768, 64, 8_192, 1], 0b0111);
    assert_eq!(p.first().kernel(), ReduceKernel::V1);
    let p = sum(
        &[1, 4, 3, 128, 64],
        &[98_304, 24_576, 8_192, 64, 1],
        0b00100,
    );
    assert_eq!(
        (p.first().kernel(), p.first().tile_cols()),
        (ReduceKernel::V2, 256)
    );
    assert_eq!(p.first().dispatch_groups(), [32, 1, 4]);
    let p = sum(&[4096, 4096], &[4096, 1], 0b11);
    assert_eq!(p.first().kernel(), ReduceKernel::V1);
}

#[test]
fn a_two_pass_v2_plan_hands_v1_the_same_partial_layout() {
    let view = ReduceView::new(&[70_000, 512], &[512, 1], 0).unwrap();
    let plan =
        ReducePlan::new(view, 0b01, ReduceOp::Sum, Finish::Scale, f(0.5), 70_000 * 512).unwrap();
    assert_eq!(plan.splits(), 2);
    let first = plan.first();
    assert_eq!(first.kernel(), ReduceKernel::V2);
    assert_eq!(first.dispatch_groups(), [512 / first.tile_cols(), 2, 1]);
    assert_eq!(first.output_len(), 1024, "kept x splits partials");
    assert_eq!(
        words(first)[1],
        Finish::NoFinish as u32,
        "the finish waits for the second pass"
    );
    let second = plan.second().unwrap();
    assert_eq!(second.kernel(), ReduceKernel::V1);
    assert_eq!(second.push_constants().len(), PUSH_BYTES);
    assert_eq!(
        &words(second)[..4],
        &[ReduceOp::Sum as u32, Finish::Scale as u32, 2, 0b10]
    );
    assert_eq!(second.dispatch_groups(), [512, 1, 1]);
}

#[test]
fn a_large_norm_splits_deterministically_into_two_passes() {
    let view = ReduceView::new(&[32_768, 768], &[768, 1], 0).unwrap();
    let n = 32_768u64 * 768;
    let plan =
        ReducePlan::new(view, 0b11, ReduceOp::SumOfSquares, Finish::Sqrt, f(1.0), n).unwrap();
    assert_eq!(plan.kept_count(), 1);
    assert_eq!(plan.reduced_count(), n);
    assert_eq!(plan.splits() as u64, n.div_ceil(CHUNK as u64));
    assert_eq!(plan.first().dispatch_groups(), [plan.splits(), 1, 1]);
    assert_eq!(
        words(plan.first())[1],
        Finish::NoFinish as u32,
        "the finish waits for the second pass"
    );
    let second = plan.second().expect("two passes");
    let w = words(second);
    assert_eq!(
        &w[..4],
        &[ReduceOp::Sum as u32, Finish::Sqrt as u32, 2, 0b10]
    );
    assert_eq!(&w[4..6], &[1, plan.splits()]);
    assert_eq!(&w[10..12], &[plan.splits(), 1]);
    assert_eq!(second.dispatch_groups(), [1, 1, 1]);
    assert_eq!(second.input_len(), plan.splits() as usize);
    assert_eq!(second.output_len(), 1);
}

#[test]
fn amax_partials_combine_with_amax() {
    let view = ReduceView::new(&[2, 70_000], &[70_000, 1], 0).unwrap();
    let plan = ReducePlan::new(view, 0b10, ReduceOp::Amax, Finish::NoFinish, f(1.0), 140_000).unwrap();
    assert_eq!(plan.splits(), 2);
    assert_eq!(words(plan.second().unwrap())[0], ReduceOp::Amax as u32);
    assert_eq!(plan.first().output_len(), 4);
}

#[test]
fn refusals_are_named() {
    assert_eq!(
        ReduceView::new(&[], &[], 0),
        Err(ReducePlanError::RankOutOfRange)
    );
    assert_eq!(
        ReduceView::new(&[1; 7], &[1; 7], 0),
        Err(ReducePlanError::RankOutOfRange)
    );
    assert_eq!(
        ReduceView::new(&[1, 2], &[1], 0),
        Err(ReducePlanError::RankOutOfRange)
    );
    assert_eq!(
        ReduceView::new(&[0], &[1], 0),
        Err(ReducePlanError::ZeroExtent)
    );
    assert_eq!(
        ReduceView::new(&[1 << 20, 1 << 12], &[1 << 12, 1], 0),
        Err(ReducePlanError::AddressOutOfRange)
    );
    let view = ReduceView::new(&[4, 4], &[4, 1], 0).unwrap();
    assert_eq!(
        ReducePlan::new(view, 0, ReduceOp::Sum, Finish::NoFinish, f(1.0), 16),
        Err(ReducePlanError::ReducedMaskInvalid)
    );
    assert_eq!(
        ReducePlan::new(view, 0b100, ReduceOp::Sum, Finish::NoFinish, f(1.0), 16),
        Err(ReducePlanError::ReducedMaskInvalid)
    );
    assert_eq!(
        ReducePlan::new(view, 0b1, ReduceOp::Sum, Finish::Scale, f(f32::NAN), 16),
        Err(ReducePlanError::InvalidScale)
    );
    assert_eq!(
        ReducePlan::new(view, 0b1, ReduceOp::Sum, Finish::NoFinish, f(1.0), 15),
        Err(ReducePlanError::CapacityTooSmall)
    );
}

#[test]
fn reference_follows_torch_semantics_on_a_transposed_view() {
    let input: Vec<f32> = (1..=6).map(|x| x as f32).collect();
    let view = ReduceView::new(&[3, 2], &[1, 3], 0).unwrap();
    let sum_rows = ReducePlan::new(view, 0b10, ReduceOp::Sum, Finish::NoFinish, f(1.0), 6).unwrap();
    assert_eq!(reference(&sum_rows, &input), vec![5.0, 7.0, 9.0]);
    let mean_cols =
        ReducePlan::new(view, 0b01, ReduceOp::Sum, Finish::Scale, f(1.0 / 3.0), 6).unwrap();
    let got = reference(&mean_cols, &input);
    assert!((got[0] - 2.0).abs() < 1e-6 && (got[1] - 5.0).abs() < 1e-6);
    let amax = ReducePlan::new(view, 0b11, ReduceOp::Amax, Finish::NoFinish, f(1.0), 6).unwrap();
    assert_eq!(reference(&amax, &input), vec![6.0]);
    let norm =
        ReducePlan::new(view, 0b11, ReduceOp::SumOfSquares, Finish::Sqrt, f(1.0), 6).unwrap();
    assert!((reference(&norm, &input)[0] - 91f64.sqrt()).abs() < 1e-12);
    let nan_input = vec![1.0, f32::NAN, 3.0, 4.0, 5.0, 6.0];
    assert!(reference(&amax, &nan_input)[0].is_nan());
}

#[test]
fn broadcast_strides_count_repeats() {
    let input = vec![2.0f32, 3.0];
    let view = ReduceView::new(&[4, 2], &[0, 1], 0).unwrap();
    let plan = ReducePlan::new(view, 0b01, ReduceOp::Sum, Finish::NoFinish, f(1.0), 2).unwrap();
    assert_eq!(reference(&plan, &input), vec![8.0, 12.0]);
}
