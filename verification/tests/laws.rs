//! Laws on concrete values.

use alelyon_compute_kit::embedding_ops::{EmbeddingOp, EmbeddingPlan};
use alelyon_compute_kit::ffi::identity::fnv1a;
use alelyon_compute_kit::ffi::reason::{Family, Part, Reason};
use alelyon_compute_kit::float_bits::{bf16_to_f32, f32_to_bf16, is_nan};
use alelyon_compute_kit::pointwise_ops::{
    Operand, PointwiseOp, PointwisePlan, PointwisePlanError, Scalars, Storage, StridedView,
};
use alelyon_compute_kit::reduce_ops::{
    Finish, ReduceKernel, ReduceOp, ReducePlan, ReduceView, CHUNK,
};

#[test]
fn every_element_of_a_view_is_reduced_once() {
    // a permuted layout: the addresses are still each element's own
    let view = ReduceView::new(&[2, 3, 4, 5], &[1, 40, 10, 2], 7).unwrap();
    for mask in 1..16u32 {
        let plan =
            ReducePlan::new(view, mask, ReduceOp::Sum, Finish::NoFinish, 0x3f80_0000, 127).unwrap();
        assert_eq!(plan.kept_count() * plan.reduced_count(), 120);
        let mut addresses: Vec<u64> = (0..plan.kept_count())
            .flat_map(|k| (0..plan.reduced_count()).map(move |r| (k, r)))
            .map(|(k, r)| plan.address(k, r))
            .collect();
        addresses.sort_unstable();
        assert_eq!(addresses, (7..127).collect::<Vec<u64>>());
    }
}

#[test]
fn splits_cover_a_long_reduction() {
    for count in [1, u64::from(CHUNK), u64::from(CHUNK) + 1, 5 * u64::from(CHUNK) + 3] {
        let view = ReduceView::new(&[count as u32], &[1], 0).unwrap();
        let plan =
            ReducePlan::new(view, 1, ReduceOp::Sum, Finish::NoFinish, 0x3f80_0000, count).unwrap();
        let splits = u64::from(plan.splits());
        assert_eq!(splits, count.div_ceil(u64::from(CHUNK)));
        assert_eq!(plan.second().is_some(), splits > 1);
    }
}

#[test]
fn one_byte_changes_a_hash() {
    let bytes: Vec<u8> = (0..200u8).collect();
    let hash = fnv1a(&[&bytes]);
    assert_eq!(hash, fnv1a(&[&bytes[..70], &bytes[70..]]));
    for i in 0..bytes.len() {
        let mut changed = bytes.clone();
        changed[i] ^= 0x40;
        assert_ne!(fnv1a(&[&changed]), hash);
    }
}

#[test]
fn narrowing_is_to_the_nearest_and_keeps_the_class() {
    for bits in (0..u32::MAX).step_by(65_537 * 3).chain([0x7f7f_ffff, 0x7f80_0001, 0xffff_ffff]) {
        let half = f32_to_bf16(bits);
        let wide = bf16_to_f32(half);
        assert_eq!(is_nan(bits), is_nan(wide));
        if !is_nan(bits) {
            let moved = i64::from(wide) - i64::from(bits);
            assert!(moved.abs() <= 32_768);
            assert!(moved.abs() < 32_768 || half % 2 == 0);
            assert_eq!(f32_to_bf16(wide), half);
        }
    }
}

#[test]
fn a_pointwise_plan_stays_inside_and_comes_back_from_its_block() {
    let shape = [3u64, 1, 5];
    // the stride of the dimension of one element says nothing
    let view = StridedView::new(2, [5, 99, 1, 0]);
    let storage = [1, 2, 3, 4].map(|id| Storage::new(id, 17));
    for diagonal in [0, 1, -1, i32::MAX, i32::MIN] {
        let scalars = Scalars::triu(diagonal);
        assert_eq!(scalars.diagonal(), diagonal);
        let plan =
            PointwisePlan::new(PointwiseOp::Triu, &shape, [view; 4], scalars, storage).unwrap();
        let canonical = plan.view(Operand::Out);
        let mut seen: Vec<u64> = Vec::new();
        for i in 0..3 {
            for k in 0..5 {
                let at = canonical.offset() + i * canonical.strides()[0] + k * canonical.strides()[2];
                assert_eq!(at, 2 + 5 * i + k);
                assert!(at < 17 && !seen.contains(&at));
                seen.push(at);
            }
        }
        let again = PointwisePlan::from_push_constants(&plan.push_constants(), storage).unwrap();
        assert_eq!(again, plan);
        assert_eq!(plan.dispatch_groups(), [1, 1, 1]);
    }
}

#[test]
fn walks_of_a_compact_tensor_are_written_and_repeated_strides_are_not() {
    // extents and strides of a compact tensor
    let base = [(4u64, 30u64), (6, 5), (5, 1)];
    let storage = [1, 2, 3, 4].map(|id| Storage::new(id, 1_000));
    let plan = |shape: &[u64], out: [u64; 4]| {
        let views = [StridedView::new(0, [0; 4]); 3];
        let views = [views[0], views[1], views[2], StridedView::new(0, out)];
        PointwisePlan::new(PointwiseOp::Copy, shape, views, Scalars::new(0), storage)
    };
    for order in [[0, 1, 2], [0, 2, 1], [1, 0, 2], [1, 2, 0], [2, 0, 1], [2, 1, 0]] {
        for step in 1..4 {
            let mut shape: Vec<u64> = Vec::new();
            let mut strides = [0u64; 4];
            for (d, i) in order.into_iter().enumerate() {
                shape.push((base[i].0 - 1) / step + 1);
                strides[d] = step * base[i].1;
            }
            assert!(plan(&shape, strides).is_ok());
            strides[1] = strides[0];
            assert_eq!(plan(&shape, strides), Err(PointwisePlanError::OutputSelfOverlap));
            strides[1] = 0;
            assert_eq!(plan(&shape, strides), Err(PointwisePlanError::OutputSelfOverlap));
        }
    }
    // the stride of a dimension of one element does not tell views apart
    assert_eq!(plan(&[4, 1, 5], [30, 7, 1, 9]), plan(&[4, 1, 5], [30, 0, 1, 0]));
    assert_ne!(plan(&[4, 1, 5], [30, 7, 1, 9]), plan(&[4, 1, 5], [20, 7, 1, 9]));
}

#[test]
fn partial_results_between_two_passes_are_four_byte() {
    let rows = 2 * CHUNK + 1;
    let view = ReduceView::new(&[rows, 300], &[300, 1], 0).unwrap();
    let capacity = u64::from(rows) * 300;
    for storage in 0..4u32 {
        let plan = ReducePlan::with_storage(
            view,
            1,
            ReduceOp::Sum,
            Finish::NoFinish,
            0x3f80_0000,
            capacity,
            true,
            storage,
        )
        .unwrap();
        let first = plan.first();
        let second = plan.second().unwrap();
        assert_eq!(first.storage(), storage & 1);
        assert_eq!(second.storage(), storage & 2);
        assert_eq!(second.input_len(), first.output_len());
        assert_eq!((first.output_len(), second.output_len()), (900, 300));
        assert_eq!(first.kernel(), ReduceKernel::V2);
        assert!([8, 16, 32, 64, 128, 256].contains(&first.tile_cols()));
        assert_eq!(first.dispatch_groups()[1..], [3, 1]);
        assert_eq!(first.dispatch_groups()[0], 300u32.div_ceil(first.tile_cols()));
    }
}

#[test]
fn buckets_group_positions_by_id() {
    let ids = [3i64, 0, 3, 1, 0, 3];
    let plan = EmbeddingPlan::new(6, 4, 2, EmbeddingOp::Backward, &ids).unwrap();
    let (offsets, positions) = (plan.offsets(), plan.positions());
    assert_eq!(offsets, &[0, 2, 3, 3, 6]);
    for id in 0..4 {
        let bucket = &positions[offsets[id] as usize..offsets[id + 1] as usize];
        assert!(bucket.windows(2).all(|pair| pair[0] < pair[1]));
        assert!(bucket.iter().all(|&p| ids[p as usize] == id as i64));
    }
}

#[test]
fn a_refused_plan_is_named_by_its_last_word() {
    let named = [
        (
            Reason::TooSmall { family: Family::Loss, part: Part::Primary, have: 7, need: 12 },
            "loss-primary-too-small",
        ),
        (
            Reason::ImageMismatch { family: Family::Embedding, part: Part::Offsets, have: 8, need: 4 },
            "embedding-offsets-size-mismatch",
        ),
        (Reason::OutputAliases { family: Family::Rowwise }, "rowwise-output-aliases-input"),
        (
            Reason::Pointwise { error: PointwisePlanError::OutputSelfOverlap },
            "pointwise-output-self-overlap",
        ),
        (Reason::ReduceOutput { have: 1, need: 2 }, "reduce-output-too-small"),
        (Reason::PartialsAlias, "reduce-partials-alias"),
    ];
    for (reason, name) in named {
        let message = reason.message().unwrap();
        assert_eq!(message.rsplit(':').next().unwrap().trim_start(), name);
    }
}
