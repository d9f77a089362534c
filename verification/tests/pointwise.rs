//! Pointwise plans: views, aliasing, encodings and storage kinds.

use alelyon_compute_kit::pointwise_ops::{
    storage_module, Operand, PointwiseOp, PointwisePlan, PointwisePlanError, Scalars, Storage,
    StridedView, ABI, ADDRESS_LIMIT, ELEMENTS_PER_GROUP, FLAG_BF16, FLAG_Y_SCALAR, FLAG_Z_SCALAR,
    LAST_OP, MAX_NDIM, OPERANDS, PUSH_BYTES, PUSH_WORDS, SCHEMA,
};

/// Every bf16 storage bit of the flags word.
const STORAGE_FLAGS: u32 = FLAG_BF16[0] | FLAG_BF16[1] | FLAG_BF16[2] | FLAG_BF16[3];

fn f(value: f32) -> u32 {
    value.to_bits()
}

fn contiguous(shape: &[u64]) -> StridedView {
    StridedView::contiguous(shape).unwrap()
}

fn elements(shape: &[u64]) -> u64 {
    shape.iter().product()
}

fn distinct_storage(shape: &[u64]) -> [Storage; OPERANDS] {
    [
        Storage::new(1, elements(shape)),
        Storage::new(2, elements(shape)),
        Storage::new(3, elements(shape)),
        Storage::new(4, elements(shape)),
    ]
}

fn words_of(plan: &PointwisePlan) -> Vec<u32> {
    plan.push_constants()
        .chunks_exact(4)
        .map(|word| u32::from_le_bytes(word.try_into().unwrap()))
        .collect()
}

fn compact_plan(op: PointwiseOp, shape: &[u64]) -> Result<PointwisePlan, PointwisePlanError> {
    PointwisePlan::new(
        op,
        shape,
        [contiguous(shape); OPERANDS],
        Scalars::new(f(1.0)),
        distinct_storage(shape),
    )
}

#[test]
fn operation_tags_and_named_errors_are_closed() {
    let table = [
        (0, PointwiseOp::AddScaled),
        (1, PointwiseOp::SubScaled),
        (2, PointwiseOp::Mul),
        (3, PointwiseOp::Div),
        (4, PointwiseOp::Fill),
        (5, PointwiseOp::Copy),
        (6, PointwiseOp::Reciprocal),
        (7, PointwiseOp::Abs),
        (8, PointwiseOp::Sqrt),
        (9, PointwiseOp::Rsqrt),
        (10, PointwiseOp::Neg),
        (11, PointwiseOp::Pow),
        (12, PointwiseOp::PowScalarBase),
        (13, PointwiseOp::Clamp),
        (14, PointwiseOp::Silu),
        (15, PointwiseOp::Sigmoid),
        (16, PointwiseOp::SigmoidBackward),
        (17, PointwiseOp::Addcmul),
        (18, PointwiseOp::Addcdiv),
        (19, PointwiseOp::Lerp),
        (20, PointwiseOp::Cos),
        (21, PointwiseOp::Sin),
        (22, PointwiseOp::Iota),
        (23, PointwiseOp::Triu),
    ];
    for (word, op) in table {
        assert_eq!(PointwiseOp::try_from(word), Ok(op));
        assert_eq!(op as u32, word);
    }
    assert_eq!(table.len() as u32, LAST_OP + 1);
    assert_eq!((SCHEMA, LAST_OP), (3, 23));
    assert_eq!(
        PointwiseOp::try_from(LAST_OP + 1),
        Err(PointwisePlanError::OperationOutOfRange)
    );
    assert_eq!(
        PointwiseOp::try_from(u32::MAX),
        Err(PointwisePlanError::OperationOutOfRange)
    );
    for op in [PointwiseOp::Fill, PointwiseOp::Iota] {
        assert!(!op.reads_x() && !op.reads_y() && !op.reads_z(), "{op:?}");
    }
    for op in [
        PointwiseOp::Copy,
        PointwiseOp::Reciprocal,
        PointwiseOp::Abs,
        PointwiseOp::Sqrt,
        PointwiseOp::Rsqrt,
        PointwiseOp::Neg,
        PointwiseOp::PowScalarBase,
        PointwiseOp::Clamp,
        PointwiseOp::Silu,
        PointwiseOp::Sigmoid,
        PointwiseOp::Cos,
        PointwiseOp::Sin,
        PointwiseOp::Triu,
    ] {
        assert!(op.reads_x() && !op.reads_y() && !op.reads_z(), "{op:?}");
    }
    for op in [
        PointwiseOp::AddScaled,
        PointwiseOp::SubScaled,
        PointwiseOp::Mul,
        PointwiseOp::Div,
        PointwiseOp::Pow,
        PointwiseOp::SigmoidBackward,
        PointwiseOp::Lerp,
    ] {
        assert!(op.reads_x() && op.reads_y() && !op.reads_z(), "{op:?}");
    }
    for op in [PointwiseOp::Addcmul, PointwiseOp::Addcdiv] {
        assert!(op.reads_x() && op.reads_y() && op.reads_z(), "{op:?}");
    }
    for (error, name) in [
        (
            PointwisePlanError::OperationOutOfRange,
            "pointwise-operation-out-of-range",
        ),
        (
            PointwisePlanError::NdimOutOfRange,
            "pointwise-ndim-out-of-range",
        ),
        (
            PointwisePlanError::TriuNeedsTwoDimensions,
            "pointwise-triu-needs-two-dimensions",
        ),
        (PointwisePlanError::ZeroElements, "pointwise-zero-elements"),
        (
            PointwisePlanError::AddressOverflow,
            "pointwise-address-overflow",
        ),
        (
            PointwisePlanError::OutputOverlapsInput,
            "pointwise-output-overlaps-input",
        ),
        (
            PointwisePlanError::OutputSelfOverlap,
            "pointwise-output-self-overlap",
        ),
        (
            PointwisePlanError::FlagsOutOfRange,
            "pointwise-flags-out-of-range",
        ),
        (
            PointwisePlanError::ElementCountMismatch,
            "pointwise-element-count-mismatch",
        ),
    ] {
        assert_eq!(error.name(), name);
    }
    assert_eq!(
        (
            ABI,
            PUSH_BYTES,
            PUSH_WORDS,
            ELEMENTS_PER_GROUP,
            ADDRESS_LIMIT
        ),
        ("pointwise-f32/v1", 120, 30, 1024, 2_147_483_648)
    );
}

#[test]
fn ndim_above_four_and_zero_elements_refuse_by_name() {
    let five = [1u64, 1, 1, 1, 1];
    assert_eq!(
        PointwisePlan::new(
            PointwiseOp::Mul,
            &five,
            [StridedView::new(0, [0; MAX_NDIM]); OPERANDS],
            Scalars::new(f(1.0)),
            distinct_storage(&five),
        ),
        Err(PointwisePlanError::NdimOutOfRange)
    );
    assert_eq!(
        StridedView::contiguous(&five),
        Err(PointwisePlanError::NdimOutOfRange)
    );
    assert_eq!(
        compact_plan(PointwiseOp::Mul, &[3, 0, 5]),
        Err(PointwisePlanError::ZeroElements)
    );
    assert_eq!(
        compact_plan(PointwiseOp::Mul, &[0]),
        Err(PointwisePlanError::ZeroElements)
    );
    let four = compact_plan(PointwiseOp::Mul, &[2, 3, 4, 5]).unwrap();
    assert_eq!(
        (four.ndim(), four.n(), four.shape()),
        (4, 120, [2, 3, 4, 5])
    );
    let scalar = compact_plan(PointwiseOp::Copy, &[]).unwrap();
    assert_eq!((scalar.ndim(), scalar.n(), scalar.shape()), (0, 1, [1; 4]));
    assert_eq!(scalar.dispatch_groups(), [1, 1, 1]);
}

#[test]
fn address_arithmetic_refuses_the_limit_the_capacity_and_wraparound() {
    let shape = [4u64];
    let storage = distinct_storage(&shape);
    let short = [storage[0], storage[1], storage[2], Storage::new(4, 3)];
    assert_eq!(
        PointwisePlan::new(
            PointwiseOp::Copy,
            &shape,
            [contiguous(&shape); OPERANDS],
            Scalars::new(f(0.0)),
            short,
        ),
        Err(PointwisePlanError::AddressOverflow)
    );
    let short_z = [storage[0], storage[1], Storage::new(3, 3), storage[3]];
    assert_eq!(
        PointwisePlan::new(
            PointwiseOp::Fill,
            &shape,
            [contiguous(&shape); OPERANDS],
            Scalars::new(f(0.0)),
            short_z,
        ),
        Err(PointwisePlanError::AddressOverflow)
    );
    let at_limit = |offset: u64| {
        PointwisePlan::new(
            PointwiseOp::Copy,
            &[1],
            [StridedView::new(offset, [0; MAX_NDIM]); OPERANDS],
            Scalars::new(f(0.0)),
            [Storage::new(9, ADDRESS_LIMIT + 1); OPERANDS],
        )
    };
    let admitted = at_limit(ADDRESS_LIMIT - 1).unwrap();
    assert_eq!(admitted.view(Operand::X).offset(), ADDRESS_LIMIT - 1);
    assert_eq!(
        words_of(&admitted)[12],
        u32::try_from(ADDRESS_LIMIT - 1).unwrap()
    );
    assert_eq!(
        at_limit(ADDRESS_LIMIT),
        Err(PointwisePlanError::AddressOverflow)
    );
    let wide = [2u64, 3];
    let unbounded = [
        Storage::new(1, u64::MAX),
        Storage::new(2, u64::MAX),
        Storage::new(3, u64::MAX),
        Storage::new(4, u64::MAX),
    ];
    let with_x = |x: StridedView| {
        PointwisePlan::new(
            PointwiseOp::Mul,
            &wide,
            [x, contiguous(&wide), contiguous(&wide), contiguous(&wide)],
            Scalars::new(f(1.0)),
            unbounded,
        )
    };
    assert_eq!(
        with_x(StridedView::new(0, [ADDRESS_LIMIT, 1, 0, 0])),
        Err(PointwisePlanError::AddressOverflow)
    );
    assert!(with_x(StridedView::new(0, [ADDRESS_LIMIT / 2, 1, 0, 0])).is_ok());
    assert_eq!(
        with_x(StridedView::new(u64::MAX - 1, [u64::MAX, 1, 0, 0])),
        Err(PointwisePlanError::AddressOverflow)
    );
    assert_eq!(
        StridedView::contiguous(&[u64::MAX, 2]),
        Err(PointwisePlanError::AddressOverflow)
    );
}

#[test]
fn broadcast_strides_are_zero_and_address_only_the_broadcast_source() {
    let shape = [1u64, 128, 512];
    let weight = StridedView::new(0, [0, 0, 1, 0]);
    let storage = [
        Storage::new(1, elements(&shape)),
        Storage::new(2, 512),
        Storage::new(1, elements(&shape)),
        Storage::new(4, elements(&shape)),
    ];
    let plan = PointwisePlan::new(
        PointwiseOp::Mul,
        &shape,
        [
            contiguous(&shape),
            weight,
            contiguous(&shape),
            contiguous(&shape),
        ],
        Scalars::new(f(1.0)),
        storage,
    )
    .unwrap();
    assert_eq!(plan.n(), 65_536);
    assert_eq!(plan.dispatch_groups(), [64, 1, 1]);
    assert_eq!(plan.view(Operand::X).strides(), [0, 512, 1, 0]);
    assert_eq!(plan.view(Operand::Y).strides(), [0, 0, 1, 0]);
    let short = [storage[0], Storage::new(2, 511), storage[2], storage[3]];
    assert_eq!(
        PointwisePlan::new(
            PointwiseOp::Mul,
            &shape,
            [
                contiguous(&shape),
                weight,
                contiguous(&shape),
                contiguous(&shape)
            ],
            Scalars::new(f(1.0)),
            short,
        ),
        Err(PointwisePlanError::AddressOverflow)
    );
    let scale = StridedView::new(0, [128, 1, 0, 0]);
    let scaled = PointwisePlan::new(
        PointwiseOp::Div,
        &shape,
        [
            contiguous(&shape),
            scale,
            contiguous(&shape),
            contiguous(&shape),
        ],
        Scalars::new(f(1.0)),
        [storage[0], Storage::new(2, 128), storage[2], storage[3]],
    )
    .unwrap();
    assert_eq!(scaled.view(Operand::Y).strides(), [0, 1, 0, 0]);
    assert_eq!(
        PointwisePlan::new(
            PointwiseOp::Div,
            &shape,
            [
                contiguous(&shape),
                scale,
                contiguous(&shape),
                contiguous(&shape)
            ],
            Scalars::new(f(1.0)),
            [storage[0], Storage::new(2, 127), storage[2], storage[3]],
        ),
        Err(PointwisePlanError::AddressOverflow)
    );
}

#[test]
fn output_self_overlap_is_refused_and_every_torch_view_layout_is_admitted() {
    let shape = [2u64, 2];
    let with_output = |output: StridedView, capacity: u64| {
        PointwisePlan::new(
            PointwiseOp::Copy,
            &shape,
            [
                contiguous(&shape),
                contiguous(&shape),
                contiguous(&shape),
                output,
            ],
            Scalars::new(f(0.0)),
            [
                Storage::new(1, 4),
                Storage::new(2, 4),
                Storage::new(3, 4),
                Storage::new(4, capacity),
            ],
        )
    };
    assert_eq!(
        with_output(StridedView::new(0, [0, 1, 0, 0]), 4),
        Err(PointwisePlanError::OutputSelfOverlap)
    );
    assert_eq!(
        with_output(StridedView::new(0, [1, 1, 0, 0]), 4),
        Err(PointwisePlanError::OutputSelfOverlap)
    );
    assert!(with_output(StridedView::new(0, [1, 2, 0, 0]), 4).is_ok());
    assert!(with_output(StridedView::new(0, [4, 2, 0, 0]), 7).is_ok());
    assert!(with_output(StridedView::new(0, [3, 1, 0, 0]), 5).is_ok());
    assert!(with_output(StridedView::new(5, [2, 1, 0, 0]), 9).is_ok());
    let broadcast_input = PointwisePlan::new(
        PointwiseOp::Mul,
        &shape,
        [
            StridedView::new(0, [0, 1, 0, 0]),
            contiguous(&shape),
            contiguous(&shape),
            contiguous(&shape),
        ],
        Scalars::new(f(1.0)),
        [
            Storage::new(1, 2),
            Storage::new(2, 4),
            Storage::new(3, 4),
            Storage::new(4, 4),
        ],
    );
    assert!(broadcast_input.is_ok());
}

#[test]
fn in_place_is_accepted_only_through_a_view_identical_to_the_output() {
    let shape = [3u64, 4];
    let x = contiguous(&shape);
    let transposed = StridedView::new(0, [1, 3, 0, 0]);
    let shared = Storage::new(7, 12);
    let other = Storage::new(8, 12);
    let in_place = PointwisePlan::new(
        PointwiseOp::Mul,
        &shape,
        [x, contiguous(&shape), x, x],
        Scalars::new(f(1.0)),
        [shared, other, shared, shared],
    )
    .unwrap();
    assert_eq!(in_place.view(Operand::Out), in_place.view(Operand::X));
    assert_eq!(in_place.storage(Operand::Out), shared);
    assert_eq!(
        PointwisePlan::new(
            PointwiseOp::Mul,
            &shape,
            [x, contiguous(&shape), x, transposed],
            Scalars::new(f(1.0)),
            [shared, other, shared, shared],
        ),
        Err(PointwisePlanError::OutputOverlapsInput)
    );
    assert_eq!(
        PointwisePlan::new(
            PointwiseOp::Mul,
            &shape,
            [x, transposed, x, x],
            Scalars::new(f(1.0)),
            [shared, shared, shared, shared],
        ),
        Err(PointwisePlanError::OutputOverlapsInput)
    );
    assert_eq!(
        PointwisePlan::new(
            PointwiseOp::Fill,
            &shape,
            [x, x, transposed, x],
            Scalars::new(f(0.0)),
            [shared, shared, shared, shared],
        ),
        Err(PointwisePlanError::OutputOverlapsInput)
    );
    assert!(PointwisePlan::new(
        PointwiseOp::Fill,
        &shape,
        [x, x, x, x],
        Scalars::new(f(0.0)),
        [shared, shared, shared, shared],
    )
    .is_ok());
    let scaled = PointwisePlan::new(
        PointwiseOp::Mul,
        &shape,
        [x, x, x, x],
        Scalars::with_scalar_y(f(1.0), f(2.0)),
        [shared, shared, shared, shared],
    )
    .unwrap();
    assert_eq!(scaled.flags(), FLAG_Y_SCALAR);
    assert_eq!(scaled.scalars().y(), Some(f(2.0)));
    let column_shape = [3u64, 1];
    let a = StridedView::new(2, [1, 1, 0, 0]);
    let b = StridedView::new(2, [1, 99, 0, 0]);
    let same = PointwisePlan::new(
        PointwiseOp::Copy,
        &column_shape,
        [a, a, a, b],
        Scalars::new(f(0.0)),
        [shared, shared, shared, shared],
    )
    .unwrap();
    assert_eq!(same.view(Operand::Out), same.view(Operand::X));
    assert_eq!(same.view(Operand::Out).strides(), [1, 0, 0, 0]);
    assert!(PointwisePlan::new(
        PointwiseOp::Mul,
        &shape,
        [x, transposed, x, contiguous(&shape)],
        Scalars::new(f(1.0)),
        [shared, shared, shared, other],
    )
    .is_ok());
}

#[test]
fn push_layout_is_exact_and_little_endian() {
    let shape = [2u64, 3, 4];
    let plan = PointwisePlan::new(
        PointwiseOp::SubScaled,
        &shape,
        [
            StridedView::new(5, [12, 4, 1, 77]),
            StridedView::new(6, [0, 4, 1, 0]),
            StridedView::new(7, [24, 8, 2, 0]),
            StridedView::new(8, [13, 4, 1, 0]),
        ],
        Scalars::with_scalar_y(f(0.5), f(-2.0)),
        [
            Storage::new(1, 5 + 12 + 8 + 3 + 1),
            Storage::new(2, 6 + 8 + 3 + 1),
            Storage::new(3, 7 + 24 + 16 + 6 + 1),
            Storage::new(4, 8 + 13 + 8 + 3 + 1),
        ],
    )
    .unwrap();
    let bytes = plan.push_constants();
    assert_eq!(bytes.len(), PUSH_BYTES);
    assert_eq!(bytes[..4], 1u32.to_le_bytes());
    assert_eq!(bytes[112..116], 0.5f32.to_bits().to_le_bytes());
    assert_eq!(bytes[116..120], (-2.0f32).to_bits().to_le_bytes());
    let words = words_of(&plan);
    assert_eq!(words.len(), PUSH_WORDS);
    assert_eq!(&words[..4], &[1, 3, 24, FLAG_Y_SCALAR]);
    assert_eq!(&words[4..8], &[2, 3, 4, 1]);
    assert_eq!(&words[8..13], &[12, 4, 1, 0, 5]);
    assert_eq!(&words[13..18], &[0, 4, 1, 0, 6]);
    assert_eq!(&words[18..23], &[24, 8, 2, 0, 7]);
    assert_eq!(&words[23..28], &[13, 4, 1, 0, 8]);
    assert_eq!(&words[28..], &[0x3f00_0000, 0xc000_0000]);
    assert_eq!(plan.dispatch_groups(), [1, 1, 1]);
    let without_scalar = PointwisePlan::new(
        PointwiseOp::Fill,
        &[1],
        [StridedView::new(0, [0; MAX_NDIM]); OPERANDS],
        Scalars::new(f(f32::NEG_INFINITY)),
        [Storage::new(1, 1); OPERANDS],
    )
    .unwrap();
    let words = words_of(&without_scalar);
    assert_eq!(&words[..8], &[4, 1, 1, 0, 1, 1, 1, 1]);
    assert_eq!(&words[8..28], &[0; 20]);
    assert_eq!(&words[28..], &[f32::NEG_INFINITY.to_bits(), 0]);
}

#[test]
fn the_head_logit_tensor_fits_one_dispatch_axis() {
    let shape = [128u64, 32_768];
    let plan = compact_plan(PointwiseOp::AddScaled, &shape).unwrap();
    assert_eq!(plan.n(), 4_194_304);
    assert_eq!(plan.dispatch_groups(), [4_096, 1, 1]);
    assert!(plan.dispatch_groups()[0] < 65_535);
    assert_eq!(plan.view(Operand::Out).strides(), [32_768, 1, 0, 0]);
    for (n, groups) in [(1u64, 1u32), (1_024, 1), (1_025, 2), (4_194_305, 4_097)] {
        assert_eq!(
            compact_plan(PointwiseOp::Copy, &[n])
                .unwrap()
                .dispatch_groups(),
            [groups, 1, 1]
        );
    }
}

#[test]
fn a_push_block_re_validates_to_the_same_plan_and_refuses_by_name() {
    let shape = [2u64, 5, 3];
    let storage = distinct_storage(&shape);
    let plan = PointwisePlan::new(
        PointwiseOp::AddScaled,
        &shape,
        [
            contiguous(&shape),
            StridedView::new(0, [0, 3, 1, 0]),
            contiguous(&shape),
            contiguous(&shape),
        ],
        Scalars::new(f(0.25)),
        [storage[0], Storage::new(2, 15), storage[2], storage[3]],
    )
    .unwrap();
    let bytes = plan.push_constants();
    let decoded = PointwisePlan::from_push_constants(
        &bytes,
        [storage[0], Storage::new(2, 15), storage[2], storage[3]],
    )
    .unwrap();
    assert_eq!(decoded, plan);
    assert_eq!(decoded.push_constants(), bytes);

    let scalar_y = PointwisePlan::new(
        PointwiseOp::Div,
        &shape,
        [contiguous(&shape); OPERANDS],
        Scalars::with_scalar_y(f(1.0), f(4.0)),
        storage,
    )
    .unwrap();
    let decoded =
        PointwisePlan::from_push_constants(&scalar_y.push_constants(), storage).unwrap();
    assert_eq!(decoded, scalar_y);
    assert_eq!(decoded.scalars(), Scalars::with_scalar_y(f(1.0), f(4.0)));

    let word = |index: usize, value: u32, storage: [Storage; OPERANDS]| {
        let mut altered = bytes;
        altered[index * 4..index * 4 + 4].copy_from_slice(&value.to_le_bytes());
        PointwisePlan::from_push_constants(&altered, storage)
    };
    let expected_storage = [storage[0], Storage::new(2, 15), storage[2], storage[3]];
    assert_eq!(
        word(0, LAST_OP + 1, expected_storage),
        Err(PointwisePlanError::OperationOutOfRange)
    );
    assert_eq!(
        word(1, 5, expected_storage),
        Err(PointwisePlanError::NdimOutOfRange)
    );
    assert_eq!(
        word(2, 31, expected_storage),
        Err(PointwisePlanError::ElementCountMismatch)
    );
    assert_eq!(
        word(3, FLAG_Z_SCALAR, expected_storage),
        Err(PointwisePlanError::FlagsOutOfRange)
    );
    assert_eq!(
        word(3, 64, expected_storage),
        Err(PointwisePlanError::FlagsOutOfRange)
    );
    for flags in [
        0,
        FLAG_BF16[3],
        FLAG_BF16[2],
        FLAG_BF16[0] | FLAG_BF16[1],
        STORAGE_FLAGS,
    ] {
        let plan = word(3, flags, expected_storage)
            .unwrap_or_else(|e| panic!("flags {flags} refused: {e:?}"));
        assert_eq!(plan.flags() & STORAGE_FLAGS, flags);
        assert_eq!(plan.storage_module(), storage_module(flags));
        let bytes = plan.push_constants();
        assert_eq!(
            u32::from_le_bytes([bytes[12], bytes[13], bytes[14], bytes[15]]) & !FLAG_Y_SCALAR,
            flags,
            "a decoded plan must re-encode its storage bits"
        );
    }
    for flags in 0..16u32 {
        let bits = (0..OPERANDS)
            .map(|i| if flags >> i & 1 == 1 { FLAG_BF16[i] } else { 0 })
            .fold(0, |a, b| a | b);
        let plan = word(3, bits, expected_storage)
            .unwrap_or_else(|e| panic!("flags {bits} refused: {e:?}"));
        assert_eq!(plan.storage_module(), flags as usize);
    }
    assert_eq!(
        word(5, 0, expected_storage),
        Err(PointwisePlanError::ZeroElements)
    );
    assert_eq!(
        word(
            27,
            0,
            [
                storage[0],
                Storage::new(2, 15),
                storage[2],
                Storage::new(4, 29)
            ]
        ),
        Err(PointwisePlanError::AddressOverflow)
    );
    assert_eq!(
        word(
            27,
            1,
            [
                storage[0],
                Storage::new(2, 15),
                storage[2],
                Storage::new(1, 31)
            ]
        ),
        Err(PointwisePlanError::OutputOverlapsInput)
    );
}

#[test]
fn schema_two_scalar_words_are_encoded_and_carried_without_the_y_flag() {
    let shape = [3u64, 4];
    let storage = distinct_storage(&shape);
    let low_only = PointwisePlan::new(
        PointwiseOp::Clamp,
        &shape,
        [contiguous(&shape); OPERANDS],
        Scalars::clamp(Some(f(-0.5)), None),
        storage,
    )
    .unwrap();
    let words = words_of(&low_only);
    assert_eq!(&words[..4], &[13, 2, 12, 0], "no y flag: b is a bound");
    assert_eq!(
        &words[28..],
        &[(-0.5f32).to_bits(), f32::INFINITY.to_bits()]
    );
    assert_eq!(low_only.scalars().y(), None);
    assert_eq!(
        (low_only.scalars().a(), low_only.scalars().b()),
        (f(-0.5), f(f32::INFINITY))
    );
    let high_only = Scalars::clamp(None, Some(f(0.25)));
    assert_eq!((high_only.a(), high_only.b()), (f(f32::NEG_INFINITY), f(0.25)));
    assert!(PointwisePlan::new(
        PointwiseOp::Clamp,
        &shape,
        [contiguous(&shape); OPERANDS],
        Scalars::clamp(Some(f(0.3)), Some(f(0.1))),
        storage,
    )
    .is_ok());
    let bytes = low_only.push_constants();
    let decoded = PointwisePlan::from_push_constants(&bytes, storage).unwrap();
    assert_eq!(decoded, low_only);
    assert_eq!(decoded.push_constants(), bytes);
    assert_eq!(decoded.scalars().b(), f(f32::INFINITY));

    let squared = PointwisePlan::new(
        PointwiseOp::Pow,
        &shape,
        [contiguous(&shape); OPERANDS],
        Scalars::with_scalar_y(f(0.0), f(2.0)),
        storage,
    )
    .unwrap();
    let words = words_of(&squared);
    assert_eq!(&words[..4], &[11, 2, 12, FLAG_Y_SCALAR]);
    assert_eq!(&words[28..], &[0, 2.0f32.to_bits()]);
    assert_eq!(squared.scalars().y(), Some(f(2.0)));
    assert!(!PointwiseOp::Pow.reads_z());
    let base = PointwisePlan::new(
        PointwiseOp::PowScalarBase,
        &shape,
        [contiguous(&shape); OPERANDS],
        Scalars::new(f(2.0)),
        storage,
    )
    .unwrap();
    assert_eq!(&words_of(&base)[28..], &[2.0f32.to_bits(), 0]);

    let ramp = PointwisePlan::new(
        PointwiseOp::Iota,
        &[1000],
        [contiguous(&[1000]); OPERANDS],
        Scalars::iota(f(0.5), f(0.25)),
        distinct_storage(&[1000]),
    )
    .unwrap();
    let words = words_of(&ramp);
    assert_eq!(&words[..4], &[22, 1, 1000, 0]);
    assert_eq!(&words[28..], &[0.5f32.to_bits(), 0.25f32.to_bits()]);
    assert!(!PointwiseOp::Iota.reads_x());

    let upper = PointwisePlan::new(
        PointwiseOp::Triu,
        &shape,
        [contiguous(&shape); OPERANDS],
        Scalars::triu(-1),
        storage,
    )
    .unwrap();
    let words = words_of(&upper);
    assert_eq!(&words[28..], &[0, 0xffff_ffff]);
    assert_eq!(upper.scalars().diagonal(), -1);
    assert_eq!(Scalars::triu(2).diagonal(), 2);
    for shape in [&[][..], &[7][..]] {
        assert_eq!(
            PointwisePlan::new(
                PointwiseOp::Triu,
                shape,
                [contiguous(shape); OPERANDS],
                Scalars::triu(0),
                distinct_storage(shape),
            ),
            Err(PointwisePlanError::TriuNeedsTwoDimensions),
            "{shape:?}"
        );
    }
    assert!(compact_plan(PointwiseOp::Triu, &[2, 3, 4]).is_ok());
    assert!(compact_plan(PointwiseOp::Triu, &[2, 2, 3, 4]).is_ok());
    let mut block = ramp.push_constants();
    block[..4].copy_from_slice(&(PointwiseOp::Triu as u32).to_le_bytes());
    assert_eq!(
        PointwisePlan::from_push_constants(&block, distinct_storage(&[1000])),
        Err(PointwisePlanError::TriuNeedsTwoDimensions)
    );

    for op in [PointwiseOp::Addcmul, PointwiseOp::Addcdiv] {
        let plan = PointwisePlan::new(
            op,
            &shape,
            [
                contiguous(&shape),
                StridedView::new(0, [0, 1, 0, 0]),
                StridedView::new(2, [4, 1, 0, 0]),
                contiguous(&shape),
            ],
            Scalars::new(f(0.7)),
            [
                storage[0],
                Storage::new(2, 4),
                Storage::new(3, 14),
                storage[3],
            ],
        )
        .unwrap();
        assert_eq!(plan.view(Operand::Z).offset(), 2);
        assert_eq!(words_of(&plan)[28], 0.7f32.to_bits());
    }
    assert_eq!(Scalars::pair(f(1.0), f(0.0)), Scalars::new(f(1.0)));
    assert_ne!(Scalars::pair(f(1.0), f(4.0)), Scalars::with_scalar_y(f(1.0), f(4.0)));
}
