use alelyon_compute_kit::packed2_ops::{
    packed_bytes, scales_for, words_for, FloatView, Packed2Kind, Packed2Plan, Packed2PlanError,
    PackedView, BLOCK_SHIFT_DIVIDE, MAX_ADDRESSED_ELEMENTS, MAX_DIM, MAX_SCALES,
};

fn words(block: &[u8]) -> Vec<u32> {
    block.chunks(4).map(|b| u32::from_le_bytes([b[0], b[1], b[2], b[3]])).collect()
}

fn float(rows: u32, cols: u32) -> FloatView {
    FloatView::contiguous(rows, cols, 0, u64::from(rows) * u64::from(cols)).unwrap()
}

fn packed(rows: u32, cols: u32, block: u32) -> PackedView {
    let weights = u64::from(rows) * u64::from(cols);
    PackedView::contiguous(rows, cols, block, words_for(weights), scales_for(weights, block))
        .unwrap()
}

#[test]
fn packed_sizes_count_codes_and_scales() {
    assert_eq!((words_for(0), words_for(1), words_for(16), words_for(17)), (0, 1, 1, 2));
    assert_eq!((scales_for(0, 8), scales_for(9, 8), scales_for(9, 0)), (0, 2, 0));
    assert_eq!(packed_bytes(1024, 64), 256 + 64);
    assert_eq!(packed_bytes(17, 16), 8 + 8);
    assert_eq!(packed_bytes(17, 0), 8);
}

#[test]
fn a_packed_product_has_its_grid_and_its_block() {
    let plan = Packed2Plan::new(float(9, 4), packed(4, 130, 8), float(9, 130)).unwrap();
    assert_eq!(plan.kind(), Packed2Kind::Scalar);
    assert_eq!((plan.m(), plan.n(), plan.k()), (9, 130, 4));
    assert_eq!(plan.dispatch_groups(), [17, 2, 1]);
    assert_eq!(plan.macs(), 9 * 130 * 4);
    assert_eq!(plan.weight_bytes(), (33 * 4 + 65 * 4, 520 * 4));
    assert_eq!(plan.control_capacity_elements(), 528);
    assert_eq!(
        words(&plan.push_constants()),
        vec![9, 130, 4, 0, 4, 1, 0, 130, 1, 0, 130, 1, 8, 65, 3]
    );
    assert_eq!((plan.a(), plan.output()), (float(9, 4), float(9, 130)));
    assert_eq!(plan.b(), packed(4, 130, 8));
}

#[test]
fn a_wide_plan_covers_sixteen_columns_per_invocation() {
    let plan = Packed2Plan::wide16(float(9, 4), packed(4, 144, 32), float(9, 144)).unwrap();
    assert_eq!(plan.dispatch_groups(), [2, 2, 1]);
    assert_eq!(plan.kind(), Packed2Kind::Wide16);
    // every group of sixteen columns is one word under one scale, and the
    // control's buffer holds all of its lanes
    let b = plan.b();
    for i in 0..u64::from(b.rows()) {
        for g in 0..u64::from(b.cols()).div_ceil(16) {
            let first = u64::from(b.offset()) + i * u64::from(b.row_stride()) + 16 * g;
            assert_eq!(first % 16, 0);
            for c in 0..16 {
                assert_eq!((first + c) / u64::from(b.block()), first / u64::from(b.block()));
                assert!(first + c < plan.control_capacity_elements());
            }
        }
    }
}

#[test]
fn every_weight_has_a_code_and_a_scale() {
    let v = PackedView::new(3, 5, 7, 11, 2, 6, 7, 3, 7).unwrap();
    assert_eq!(v.required_weights(), 7 + 22 + 8 + 1);
    assert_eq!((v.codes_capacity_words(), v.scales_capacity_elements()), (3, 7));
    assert_eq!((v.packed_bytes(), v.fp32_bytes()), (3 * 4 + 7 * 4, 38 * 4));
    for i in 0..3u64 {
        for j in 0..5u64 {
            let w = 7 + 11 * i + 2 * j;
            assert!(w < v.required_weights());
            assert!(w / 16 < v.codes_capacity_words());
            assert!(w / u64::from(v.block()) < u64::from(v.n_scales()));
        }
    }
}

#[test]
fn a_power_of_two_block_is_a_shift_and_any_other_divides() {
    for (block, shift) in
        [(1, 0), (2, 1), (16, 4), (64, 6), (1 << 31, 31), (3, 32), (48, 32), (u32::MAX, 32)]
    {
        assert_eq!(packed(4, 16, block).block_shift(), shift);
    }
    let plan = Packed2Plan::new(float(1, 4), packed(4, 16, 64), float(1, 16)).unwrap();
    let divided = plan.with_divide_path();
    assert_eq!(plan.b().block_shift(), 6);
    assert_eq!(divided.b().block_shift(), BLOCK_SHIFT_DIVIDE);
    assert_eq!(words(&divided.push_constants())[14], BLOCK_SHIFT_DIVIDE);
    assert_eq!(words(&divided.push_constants())[..14], words(&plan.push_constants())[..14]);
}

#[test]
fn each_packed_view_refusal_has_an_input() {
    let float = |r, c, o, rs, cs, cap| FloatView::new(r, c, o, rs, cs, cap);
    for (r, c) in [(0, 1), (1, 0), (MAX_DIM + 1, 1), (1, MAX_DIM + 1)] {
        assert_eq!(float(r, c, 0, 1, 1, 1), Err(Packed2PlanError::DimensionOutOfRange));
    }
    assert_eq!(float(1, 1, 0, 0, 1, 1), Err(Packed2PlanError::ZeroStride));
    assert_eq!(float(1, 1, 0, 1, 0, 1), Err(Packed2PlanError::ZeroStride));
    assert_eq!(
        float(MAX_DIM, 4097, 0, 1, 1, u64::MAX),
        Err(Packed2PlanError::AddressLimitExceeded)
    );
    assert_eq!(float(3, 1, 0, u64::MAX, 1, u64::MAX), Err(Packed2PlanError::AddressOverflow));
    assert_eq!(float(1, 1, u64::MAX, 1, 1, u64::MAX), Err(Packed2PlanError::AddressOverflow));
    assert_eq!(
        float(1, 1, MAX_ADDRESSED_ELEMENTS, 1, 1, u64::MAX),
        Err(Packed2PlanError::AddressLimitExceeded)
    );
    assert_eq!(float(1, 1, 0, 1 << 32, 1, 1), Err(Packed2PlanError::AddressLimitExceeded));
    assert_eq!(float(2, 2, 0, 2, 1, 3), Err(Packed2PlanError::CapacityTooSmall));

    let packed = |block, n, codes, scales| PackedView::new(4, 8, 0, 8, 1, block, n, codes, scales);
    assert_eq!(packed(0, 4, 2, 4), Err(Packed2PlanError::ZeroBlock));
    assert_eq!(packed(8, 4, 1, 4), Err(Packed2PlanError::CodesCapacityTooSmall));
    assert_eq!(packed(8, MAX_SCALES + 1, 2, u64::MAX), Err(Packed2PlanError::AddressLimitExceeded));
    assert_eq!(packed(8, 3, 2, 4), Err(Packed2PlanError::ScaleTableTooShort));
    assert_eq!(packed(8, 5, 2, 4), Err(Packed2PlanError::CapacityTooSmall));
    assert!(packed(8, 4, 2, 4).is_ok());
}

#[test]
fn each_packed_plan_refusal_has_an_input() {
    let wide = |b: PackedView| Packed2Plan::wide16(float(1, b.rows()), b, float(1, b.cols()));
    let view = |offset, row_stride, col_stride, block| {
        PackedView::new(2, 16, offset, row_stride, col_stride, block, 64, 64, 64).unwrap()
    };
    assert_eq!(wide(view(0, 32, 2, 16)), Err(Packed2PlanError::ColumnStrideNotOne));
    assert_eq!(wide(view(8, 16, 1, 16)), Err(Packed2PlanError::OffsetNotWordAligned));
    assert_eq!(wide(view(0, 24, 1, 16)), Err(Packed2PlanError::RowStrideNotWordAligned));
    assert_eq!(wide(view(0, 16, 1, 8)), Err(Packed2PlanError::BlockNotWordAligned));
    assert!(wide(view(16, 16, 1, 16)).is_ok());
    // a one-row operand never uses its row stride
    let row = PackedView::new(1, 16, 0, 5, 1, 16, 1, 1, 1).unwrap();
    assert!(wide(row).is_ok());
    // the scalar kernel asks none of it
    let loose = view(8, 24, 1, 8);
    assert!(Packed2Plan::new(float(1, 2), loose, float(1, 16)).is_ok());

    assert_eq!(
        Packed2Plan::new(float(1, 3), packed(2, 4, 4), float(1, 4)),
        Err(Packed2PlanError::DimensionMismatch)
    );
    let folded = FloatView::new(2, 4, 0, 3, 1, 64).unwrap();
    assert_eq!(
        Packed2Plan::new(float(2, 2), packed(2, 4, 4), folded),
        Err(Packed2PlanError::OutputOverlap)
    );
    let column_major = FloatView::new(2, 4, 0, 1, 2, 8).unwrap();
    assert!(Packed2Plan::new(float(2, 2), packed(2, 4, 4), column_major).is_ok());
}

#[test]
fn every_packed_refusal_has_its_name() {
    let named = [
        (Packed2PlanError::DimensionOutOfRange, "packed2-dimension-out-of-range"),
        (Packed2PlanError::DimensionMismatch, "packed2-dimension-mismatch"),
        (Packed2PlanError::ZeroStride, "packed2-zero-stride"),
        (Packed2PlanError::ZeroBlock, "packed2-zero-block"),
        (Packed2PlanError::AddressOverflow, "packed2-address-overflow"),
        (Packed2PlanError::AddressLimitExceeded, "packed2-address-limit-exceeded"),
        (Packed2PlanError::CapacityTooSmall, "packed2-capacity-too-small"),
        (Packed2PlanError::CodesCapacityTooSmall, "packed2-codes-capacity-too-small"),
        (Packed2PlanError::ScaleTableTooShort, "packed2-scale-table-too-short"),
        (Packed2PlanError::OutputOverlap, "packed2-output-overlap"),
        (Packed2PlanError::ColumnStrideNotOne, "packed2-v2-column-stride-not-one"),
        (Packed2PlanError::OffsetNotWordAligned, "packed2-v2-offset-not-word-aligned"),
        (Packed2PlanError::RowStrideNotWordAligned, "packed2-v2-row-stride-not-word-aligned"),
        (Packed2PlanError::BlockNotWordAligned, "packed2-v2-block-not-word-aligned"),
    ];
    for (error, name) in named {
        assert_eq!(error.name(), name);
    }
}
