use alelyon_compute_kit::matmul_ops::{
    MatmulKind, MatmulPlan, MatmulPlanError, MatrixView, MAX_ADDRESSED_ELEMENTS, MAX_BATCH, MAX_DIM,
};

fn words(block: &[u8]) -> Vec<u32> {
    block.chunks(4).map(|b| u32::from_le_bytes([b[0], b[1], b[2], b[3]])).collect()
}

fn dense(batch: u32, rows: u32, cols: u32) -> MatrixView {
    let elements = u64::from(batch) * u64::from(rows) * u64::from(cols);
    MatrixView::contiguous(batch, rows, cols, 0, elements).unwrap()
}

#[test]
fn a_single_product_has_its_grid_and_its_block() {
    let plan = MatmulPlan::mm(dense(1, 3, 5), dense(1, 5, 9), dense(1, 3, 9)).unwrap();
    assert_eq!((plan.batch(), plan.m(), plan.n(), plan.k()), (1, 3, 9, 5));
    assert_eq!(plan.kind(), MatmulKind::Mm);
    assert_eq!(plan.dispatch_groups(), [2, 1, 1]);
    assert_eq!(
        words(&plan.push_constants()),
        vec![1, 3, 9, 5, 0, 15, 5, 1, 0, 45, 9, 1, 0, 27, 9, 1]
    );
}

#[test]
fn the_plain_kernel_cuts_the_grid_to_its_own_tile() {
    let (a, b, c) = (dense(1, 65, 3), dense(1, 3, 129), dense(1, 65, 129));
    assert_eq!(MatmulPlan::mm(a, b, c).unwrap().dispatch_groups(), [17, 9, 1]);
    let plain = MatmulPlan::mm_plain(a, b, c).unwrap();
    assert_eq!(plain.dispatch_groups(), [3, 2, 1]);
    assert!(plain.kind().is_plain() && !plain.kind().is_batched());
    let batch = (dense(4, 8, 8), dense(4, 8, 8), dense(4, 8, 8));
    assert_eq!(MatmulPlan::bmm(batch.0, batch.1, batch.2).unwrap().dispatch_groups(), [1, 1, 4]);
    let plain = MatmulPlan::bmm_plain(batch.0, batch.1, batch.2).unwrap();
    assert_eq!(plain.dispatch_groups(), [1, 1, 4]);
    assert!(plain.kind().is_plain() && plain.kind().is_batched());
}

#[test]
fn a_transposed_view_swaps_the_strides() {
    let t = MatrixView::transposed_storage(2, 3, 5, 7, 37).unwrap();
    assert_eq!((t.batch(), t.rows(), t.cols(), t.offset()), (2, 3, 5, 7));
    assert_eq!((t.batch_stride(), t.row_stride(), t.col_stride()), (15, 1, 3));
    assert_eq!(t.required_elements(), 37);
    assert_eq!(t.logical_elements(), 30);
    assert_eq!(t.capacity_elements(), 37);
    assert_eq!(
        MatrixView::transposed_storage(2, 3, 5, 7, 36),
        Err(MatmulPlanError::CapacityTooSmall)
    );
}

#[test]
fn a_contiguous_view_counts_its_offset_in_its_capacity() {
    assert_eq!(
        MatrixView::contiguous(1, 4, 4, 1, 16),
        Err(MatmulPlanError::CapacityTooSmall)
    );
    assert_eq!(MatrixView::contiguous(1, 4, 4, 1, 17).unwrap().required_elements(), 17);
}

#[test]
fn each_view_refusal_has_an_input() {
    let view = |b, r, c, o, bs, rs, cs, cap| MatrixView::new(b, r, c, o, bs, rs, cs, cap);
    for (b, r, c) in [
        (0, 1, 1),
        (1, 0, 1),
        (1, 1, 0),
        (MAX_BATCH + 1, 1, 1),
        (1, MAX_DIM + 1, 1),
        (1, 1, MAX_DIM + 1),
    ] {
        assert_eq!(view(b, r, c, 0, 1, 1, 1, 1), Err(MatmulPlanError::DimensionOutOfRange));
    }
    for (bs, rs, cs) in [(0, 1, 1), (1, 0, 1), (1, 1, 0)] {
        assert_eq!(view(1, 1, 1, 0, bs, rs, cs, 1), Err(MatmulPlanError::ZeroStride));
    }
    // more logical elements than one operand may address
    assert_eq!(
        view(2, MAX_DIM, 4096, 0, 1, 1, 1, u64::MAX),
        Err(MatmulPlanError::AddressLimitExceeded)
    );
    // a term, a sum and the final step past the address word
    assert_eq!(view(3, 1, 1, 0, u64::MAX, 1, 1, u64::MAX), Err(MatmulPlanError::AddressOverflow));
    assert_eq!(view(1, 2, 1, 1, 1, u64::MAX, 1, u64::MAX), Err(MatmulPlanError::AddressOverflow));
    assert_eq!(view(1, 1, 1, u64::MAX, 1, 1, 1, u64::MAX), Err(MatmulPlanError::AddressOverflow));
    assert_eq!(
        view(1, 1, 1, MAX_ADDRESSED_ELEMENTS, 1, 1, 1, u64::MAX),
        Err(MatmulPlanError::AddressLimitExceeded)
    );
    assert!(view(1, 1, 1, MAX_ADDRESSED_ELEMENTS - 1, 1, 1, 1, u64::MAX).is_ok());
    // a stride that is never taken still has to fit its push word
    assert_eq!(
        view(1, 1, 1, 0, 1 << 32, 1, 1, 1),
        Err(MatmulPlanError::AddressLimitExceeded)
    );
}

#[test]
fn each_plan_refusal_has_an_input() {
    assert_eq!(
        MatmulPlan::bmm(dense(2, 2, 2), dense(1, 2, 2), dense(2, 2, 2)),
        Err(MatmulPlanError::BatchMismatch)
    );
    assert_eq!(
        MatmulPlan::mm(dense(2, 2, 2), dense(2, 2, 2), dense(2, 2, 2)),
        Err(MatmulPlanError::MmRequiresSingleBatch)
    );
    assert_eq!(
        MatmulPlan::mm_plain(dense(2, 2, 2), dense(2, 2, 2), dense(2, 2, 2)),
        Err(MatmulPlanError::MmRequiresSingleBatch)
    );
    assert_eq!(
        MatmulPlan::mm(dense(1, 2, 3), dense(1, 2, 3), dense(1, 2, 3)),
        Err(MatmulPlanError::DimensionMismatch)
    );
    let folded = MatrixView::new(1, 2, 3, 0, 1, 2, 1, 64).unwrap();
    assert_eq!(
        MatmulPlan::mm(dense(1, 2, 2), dense(1, 2, 3), folded),
        Err(MatmulPlanError::OutputOverlap)
    );
    let crossed = MatrixView::new(2, 2, 3, 0, 5, 3, 1, 64).unwrap();
    assert_eq!(
        MatmulPlan::bmm(dense(2, 2, 2), dense(2, 2, 3), crossed),
        Err(MatmulPlanError::OutputOverlap)
    );
    assert_eq!(MatmulKind::try_from(4), Err(MatmulPlanError::OperationOutOfRange));
    assert_eq!(MatmulKind::try_from(3), Ok(MatmulKind::BmmPlain));
}

#[test]
fn an_admitted_output_gives_every_element_an_address_of_its_own() {
    let padded = MatrixView::new(2, 3, 4, 5, 40, 1, 7, 90).unwrap();
    let plan = MatmulPlan::bmm(dense(2, 3, 2), dense(2, 2, 4), padded).unwrap();
    let out = plan.output();
    let mut seen: Vec<u64> = Vec::new();
    for b in 0..out.batch() {
        for i in 0..out.rows() {
            for j in 0..out.cols() {
                let at = u64::from(out.offset())
                    + u64::from(b) * u64::from(out.batch_stride())
                    + u64::from(i) * u64::from(out.row_stride())
                    + u64::from(j) * u64::from(out.col_stride());
                assert!(at < out.required_elements());
                assert!(out.required_elements() <= out.capacity_elements());
                assert!(!seen.contains(&at));
                seen.push(at);
            }
        }
    }
    assert_eq!(seen.len() as u64, out.logical_elements());
}

#[test]
fn every_matmul_refusal_has_its_name() {
    let named = [
        (MatmulPlanError::OperationOutOfRange, "matmul-operation-out-of-range"),
        (MatmulPlanError::DimensionOutOfRange, "matmul-dimension-out-of-range"),
        (MatmulPlanError::DimensionMismatch, "matmul-dimension-mismatch"),
        (MatmulPlanError::BatchMismatch, "matmul-batch-mismatch"),
        (MatmulPlanError::MmRequiresSingleBatch, "matmul-mm-requires-single-batch"),
        (MatmulPlanError::ZeroStride, "matmul-zero-stride"),
        (MatmulPlanError::AddressOverflow, "matmul-address-overflow"),
        (MatmulPlanError::AddressLimitExceeded, "matmul-address-limit-exceeded"),
        (MatmulPlanError::CapacityTooSmall, "matmul-capacity-too-small"),
        (MatmulPlanError::OutputOverlap, "matmul-output-overlap"),
    ];
    for (error, name) in named {
        assert_eq!(error.name(), name);
    }
}
