//! The boundary's codes, handles, records and refusals, with no device open.

use alelyon_compute_kit::embedding_ops::{EmbeddingOp, EmbeddingPlan};
use alelyon_compute_kit::error::AckError;
use alelyon_compute_kit::ffi::buffers::{
    ack_buffer_alloc, ack_buffer_free, ack_close, ack_download, ack_upload,
};
use alelyon_compute_kit::ffi::embedding::ack_embedding;
use alelyon_compute_kit::ffi::identity::{build_identity, fnv1a, shader_identity, SHADER_MODULES};
use alelyon_compute_kit::ffi::loss::{ack_loss, loss_reads};
use alelyon_compute_kit::ffi::matmul::ack_cast;
use alelyon_compute_kit::ffi::pointwise::ack_pointwise;
use alelyon_compute_kit::ffi::reason::{Reason, Refusal, RowPlanError};
use alelyon_compute_kit::ffi::records::{
    ack_abi_info, ack_device_info, ack_device_name, ack_dispatch_stats, ack_last_error,
    fill_c_string, info_identity, AckAbiInfo, AckDeviceInfo, AckDispatchStats,
};
use alelyon_compute_kit::ffi::reduce::ack_reduce;
use alelyon_compute_kit::ffi::rowwise::{ack_rowwise, rowwise_reads, RowOp, RowShape};
use alelyon_compute_kit::ffi::{
    buffer_handle, code_for, split_buffer_handle, ACK_ABI_VERSION, ACK_ERR_ABI, ACK_ERR_CLOSED,
    ACK_ERR_NULL, ACK_ERR_POISONED, ACK_ERR_SHAPE, ACK_ERR_SIZE, ACK_ERR_TIMING,
    ACK_FEATURE_COOPMAT_BF16_16X16X16_SUBGROUP, ACK_OK, ACK_OP_CAST, ACK_OP_EMBEDDING, ACK_OP_LOSS,
    ACK_OP_MATMUL_BF16, ACK_OP_MATMUL_F32, ACK_OP_POINTWISE, ACK_OP_REDUCE, ACK_OP_ROWWISE,
    ACK_OP_SCHEMA_EMBEDDING, ACK_OP_SCHEMA_LOSS, ACK_OP_SCHEMA_MATMUL_F32, ACK_OP_SCHEMA_POINTWISE,
    ACK_OP_SCHEMA_REDUCE, ACK_OP_SCHEMA_ROWWISE, EMBEDDING_PUSH_BYTES, LOSS_PUSH_BYTES,
    ROWWISE_PUSH_BYTES,
};
use alelyon_compute_kit::loss_ops::{LossOp, LossPlan, LossReduction};
use alelyon_compute_kit::{pointwise_ops, reduce_ops};

/// A null device or buffer handle.
const NULL: u64 = 0;

/// The widest row that the row planner below accepts.
const MAX_COLS: u32 = 1 << 18;

/// The code an entry answers with.
fn code<T>(answer: &Result<T, Refusal>) -> i32 {
    match answer {
        Ok(_) => ACK_OK,
        Err(refusal) => refusal.code,
    }
}

/// The message an entry leaves behind.
fn message<T>(answer: &Result<T, Refusal>) -> String {
    match answer {
        Ok(_) => String::new(),
        Err(refusal) => refusal.reason.message().unwrap_or_default(),
    }
}

/// The text in front of the first zero byte.
fn text_of(bytes: &[u8]) -> &str {
    let end = bytes.iter().position(|&byte| byte == 0).unwrap();
    std::str::from_utf8(&bytes[..end]).unwrap()
}

fn shaders() -> u64 {
    let modules: [&[u8]; SHADER_MODULES] = [b"module"; SHADER_MODULES];
    shader_identity(&modules)
}

fn empty_device_info() -> AckDeviceInfo {
    AckDeviceInfo {
        size: 0,
        version: 0,
        api_version: 0,
        driver_version_raw: 0,
        driver_id: 0,
        vendor_id: 0,
        device_id: 0,
        device_type: 0,
        device_uuid: [0; 16],
        driver_uuid: [0; 16],
        features: 0,
        subgroup_size: 0,
        timestamp_valid_bits: 0,
        timestamp_period_bits: 0,
        max_push_constant_bytes: 0,
        device_local_bytes: 0,
        max_storage_buffer_bytes: 0,
        max_workgroup_invocations: 0,
        max_workgroup_count: [0; 3],
        max_workgroup_size: [0; 3],
        matmul_tile: 0,
        matmul_k_multiple: 0,
        matmul_layouts: 0,
        matmul_operand_dtype: 0,
        matmul_result_dtype: 0,
        cast_modes: 0,
        reserved: 0,
        identity: 0,
        device_name: [0; 256],
        driver_name: [0; 64],
        driver_info: [0; 128],
    }
}

fn empty_stats() -> AckDispatchStats {
    AckDispatchStats {
        size: 0,
        version: 0,
        items: 0,
        commands: 0,
        barriers: 0,
        flushes: 0,
        timed_flushes: 0,
        timed_items: 0,
        device_ns: 0,
        min_item_ns: 0,
        max_item_ns: 0,
        unresolved_flushes: 0,
        timestamps_enabled: 0,
        reserved: 0,
    }
}

/// Where two images of the same length first differ.
fn first_difference(a: &[u8], b: &[u8]) -> usize {
    assert_eq!(a.len(), b.len());
    a.iter().zip(b).position(|(x, y)| x != y).unwrap()
}

#[test]
fn an_ambiguous_timing_has_its_own_code_and_a_poison_keeps_its_own() {
    assert_eq!(
        code_for(&AckError::AmbiguousTiming("x".into())),
        ACK_ERR_TIMING
    );
    assert_eq!(code_for(&AckError::Poisoned("x".into())), ACK_ERR_POISONED);
    assert_ne!(ACK_ERR_TIMING, ACK_ERR_SHAPE);
}

#[test]
fn buffer_handles_name_their_owner_and_never_collide_across_devices() {
    let h = buffer_handle(7, 3);
    assert_eq!(split_buffer_handle(h), (7, 3));
    assert_ne!(buffer_handle(7, 3), buffer_handle(8, 3));
    assert_ne!(buffer_handle(7, 3), buffer_handle(7, 4));
    assert_ne!(buffer_handle(1, 1), 0, "a live handle is never null");
    assert_eq!(
        split_buffer_handle(buffer_handle(u32::MAX as u64, u32::MAX)),
        (u32::MAX as u64, u32::MAX)
    );
}

#[test]
fn unknown_handles_are_refused_by_name_without_a_device() {
    let bogus: u64 = 0x7ACC_0001;
    assert_eq!(code(&ack_close(bogus, None)), ACK_ERR_CLOSED);
    assert_eq!(code(&ack_close(NULL, None)), ACK_ERR_NULL);
    assert!(ack_buffer_alloc(bogus, None, 64).is_err());
    assert_eq!(
        code(&ack_buffer_free(bogus, None, 0x1_0000_0001)),
        ACK_ERR_CLOSED
    );
    assert_eq!(
        code(&ack_upload(bogus, None, 0x1_0000_0001, Some(8))),
        ACK_ERR_CLOSED
    );
    assert_eq!(
        code(&ack_download(bogus, None, 0x1_0000_0001, Some(8))),
        ACK_ERR_CLOSED
    );
    assert_eq!(
        code(&ack_cast(bogus, None, 0x1_0000_0001, 0x1_0000_0002, 4, 0)),
        ACK_ERR_CLOSED
    );
    let block = [0u8; pointwise_ops::PUSH_BYTES];
    assert_eq!(
        code(&ack_pointwise(
            bogus,
            None,
            [0x1_0000_0001, 0x1_0000_0001, 0x1_0000_0001, 0x1_0000_0002],
            Some(&block),
        )),
        ACK_ERR_CLOSED
    );
    let named = ack_device_name(bogus, None, Some(16));
    assert_eq!(code(&named), ACK_ERR_CLOSED);
    let last = ack_last_error(&message(&named), Some(128)).unwrap();
    let text = text_of(&last);
    assert!(text.contains("not open"), "{text}");
}

#[test]
fn abi_info_reports_the_version_and_refuses_a_short_struct() {
    let shaders = shaders();
    let build = build_identity("0.1.0", shaders);
    let info = ack_abi_info(Some(80), shaders, build).unwrap();
    assert_eq!(info.version, ACK_ABI_VERSION);
    assert_eq!(info.size as usize, info.image().len());
    assert_eq!(
        info.operators,
        ACK_OP_MATMUL_BF16
            | ACK_OP_CAST
            | ACK_OP_MATMUL_F32
            | ACK_OP_POINTWISE
            | ACK_OP_REDUCE
            | ACK_OP_ROWWISE
            | ACK_OP_LOSS
            | ACK_OP_EMBEDDING
    );
    assert_eq!(info.op_schema_matmul_f32, ACK_OP_SCHEMA_MATMUL_F32);
    assert_eq!(info.op_schema_pointwise, ACK_OP_SCHEMA_POINTWISE);
    assert_eq!(info.op_schema_reduce, ACK_OP_SCHEMA_REDUCE);
    assert_eq!(info.op_schema_rowwise, ACK_OP_SCHEMA_ROWWISE);
    assert_eq!(info.op_schema_loss, ACK_OP_SCHEMA_LOSS);
    assert_eq!(info.op_schema_embedding, ACK_OP_SCHEMA_EMBEDDING);
    assert_eq!(info.shaders, shaders);
    assert_ne!(info.shaders, 0);
    assert_eq!(info.build, build);
    assert_eq!((info.op_schema_matmul_bf16, info.op_schema_cast), (2, 1));
    assert_eq!(
        (
            info.capability_streams,
            info.capability_rng,
            info.capability_optimizer,
            info.capability_serialization
        ),
        (0, 0, 0, 0),
        "absent capabilities are 0, never a version"
    );
    assert_eq!(
        code(&ack_abi_info(Some(24), shaders, build)),
        ACK_ERR_ABI,
        "a version-1 caller's struct is refused"
    );
    assert_eq!(code(&ack_abi_info(None, shaders, build)), ACK_ERR_NULL);
}

#[test]
fn the_structs_have_the_sizes_and_offsets_the_ctypes_mirrors_assume() {
    let abi = ack_abi_info(Some(80), 0, 0).unwrap();
    let image = abi.image();
    assert_eq!(image.len(), 80);
    let moved = |changed: AckAbiInfo| first_difference(&image, &changed.image());
    assert_eq!(moved(AckAbiInfo { op_schema_matmul_f32: 77, ..abi }), 56);
    assert_eq!(moved(AckAbiInfo { op_schema_pointwise: 77, ..abi }), 60);
    assert_eq!(moved(AckAbiInfo { op_schema_reduce: 77, ..abi }), 64);
    assert_eq!(moved(AckAbiInfo { op_schema_embedding: 77, ..abi }), 76);
    assert_eq!(moved(AckAbiInfo { shaders: 77, ..abi }), 16);
    assert_eq!(moved(AckAbiInfo { build: 77, ..abi }), 24);
    assert_eq!(moved(AckAbiInfo { capability_serialization: 77, ..abi }), 52);

    let info = empty_device_info();
    let image = info.image();
    assert_eq!(image.len(), 616);
    assert_eq!(image.len() % 8, 0);
    let moved = |changed: AckDeviceInfo| first_difference(&image, &changed.image());
    for (name, offset) in [
        ("device_uuid", moved(AckDeviceInfo { device_uuid: [1; 16], ..info })),
        ("driver_uuid", moved(AckDeviceInfo { driver_uuid: [1; 16], ..info })),
        ("features", moved(AckDeviceInfo { features: 1, ..info })),
        ("timestamp_period_ns", moved(AckDeviceInfo { timestamp_period_bits: 1, ..info })),
        ("device_local_bytes", moved(AckDeviceInfo { device_local_bytes: 1, ..info })),
        ("max_workgroup_count", moved(AckDeviceInfo { max_workgroup_count: [1; 3], ..info })),
        ("matmul_tile", moved(AckDeviceInfo { matmul_tile: 1, ..info })),
        ("identity", moved(AckDeviceInfo { identity: 1, ..info })),
        ("device_name", moved(AckDeviceInfo { device_name: [1; 256], ..info })),
        ("driver_name", moved(AckDeviceInfo { driver_name: [1; 64], ..info })),
        ("driver_info", moved(AckDeviceInfo { driver_info: [1; 128], ..info })),
    ] {
        let expected = match name {
            "device_uuid" => 32,
            "driver_uuid" => 48,
            "features" => 64,
            "timestamp_period_ns" => 80,
            "device_local_bytes" => 88,
            "max_workgroup_count" => 108,
            "matmul_tile" => 132,
            "identity" => 160,
            "device_name" => 168,
            "driver_name" => 424,
            "driver_info" => 488,
            _ => unreachable!(),
        };
        assert_eq!(offset, expected, "{name}");
    }
    assert_eq!(
        info.numeric_bytes(),
        &image[8..160],
        "the hashed range ends where identity begins"
    );

    let stats = empty_stats();
    let image = stats.image();
    assert_eq!(image.len(), 96);
    assert_eq!(image.len() % 8, 0);
    let moved = |changed: AckDispatchStats| first_difference(&image, &changed.image());
    for (name, offset) in [
        ("size", moved(AckDispatchStats { size: 1, ..stats })),
        ("version", moved(AckDispatchStats { version: 1, ..stats })),
        ("items", moved(AckDispatchStats { items: 1, ..stats })),
        ("commands", moved(AckDispatchStats { commands: 1, ..stats })),
        ("barriers", moved(AckDispatchStats { barriers: 1, ..stats })),
        ("flushes", moved(AckDispatchStats { flushes: 1, ..stats })),
        ("timed_flushes", moved(AckDispatchStats { timed_flushes: 1, ..stats })),
        ("timed_items", moved(AckDispatchStats { timed_items: 1, ..stats })),
        ("device_ns", moved(AckDispatchStats { device_ns: 1, ..stats })),
        ("min_item_ns", moved(AckDispatchStats { min_item_ns: 1, ..stats })),
        ("max_item_ns", moved(AckDispatchStats { max_item_ns: 1, ..stats })),
        ("unresolved_flushes", moved(AckDispatchStats { unresolved_flushes: 1, ..stats })),
        ("timestamps_enabled", moved(AckDispatchStats { timestamps_enabled: 1, ..stats })),
    ] {
        let expected = match name {
            "size" => 0,
            "version" => 4,
            "items" => 8,
            "commands" => 16,
            "barriers" => 24,
            "flushes" => 32,
            "timed_flushes" => 40,
            "timed_items" => 48,
            "device_ns" => 56,
            "min_item_ns" => 64,
            "max_item_ns" => 72,
            "unresolved_flushes" => 80,
            "timestamps_enabled" => 88,
            _ => unreachable!(),
        };
        assert_eq!(offset, expected, "{name}");
    }
}

#[test]
fn the_dispatch_stats_entry_refuses_a_null_out_and_a_short_struct() {
    let size = empty_stats().image().len();
    assert_eq!(
        code(&ack_dispatch_stats(NULL, None, None)),
        ACK_ERR_NULL,
        "the out pointer is checked before the device"
    );
    assert_eq!(
        code(&ack_dispatch_stats(NULL, None, Some(size - 1))),
        ACK_ERR_ABI,
        "a short struct is refused before the device is touched"
    );
    assert_eq!(
        code(&ack_dispatch_stats(NULL, None, Some(size))),
        ACK_ERR_NULL,
        "a null device handle is refused by `device`, after the layout check"
    );
}

#[test]
fn the_identity_changes_with_any_numeric_field_and_not_with_the_names() {
    let shaders = shaders();
    let mut info = empty_device_info();
    let base = info_identity(&info, shaders);
    info.features |= ACK_FEATURE_COOPMAT_BF16_16X16X16_SUBGROUP;
    let with_feature = info_identity(&info, shaders);
    assert_ne!(base, with_feature, "a feature bit is part of the identity");
    info.max_push_constant_bytes = 256;
    assert_ne!(
        with_feature,
        info_identity(&info, shaders),
        "a limit is part of the identity"
    );
    info.driver_version_raw = 7;
    let with_driver = info_identity(&info, shaders);
    assert_ne!(with_feature, with_driver);
    fill_c_string(&mut info.device_name, "another name");
    assert_eq!(
        with_driver,
        info_identity(&info, shaders),
        "names are display text, not identity"
    );
    info.size = 1;
    info.version = 9;
    assert_eq!(
        with_driver,
        info_identity(&info, shaders),
        "size and version are outside the hash"
    );
    let mut s = [0u8; 6];
    fill_c_string(&mut s, "ab\u{e9}cd");
    assert_eq!(text_of(&s), "ab\u{e9}c");
    let mut t = [0u8; 4];
    fill_c_string(&mut t, "ab\u{e9}");
    assert_eq!(text_of(&t), "ab");
}

#[test]
fn device_info_refuses_a_closed_handle_and_a_short_struct_without_a_device() {
    let bogus: u64 = 0x7ACC_0002;
    assert_eq!(
        code(&ack_device_info(bogus, None, Some(616), 0)),
        ACK_ERR_CLOSED
    );
    assert_eq!(code(&ack_device_info(bogus, None, Some(16), 0)), ACK_ERR_ABI);
    assert_eq!(code(&ack_device_info(bogus, None, None, 0)), ACK_ERR_NULL);
    let mut s = [0u8; 8];
    fill_c_string(&mut s, "0123456789");
    assert_eq!(text_of(&s), "0123456");
}

#[test]
fn shader_identity_is_stable_and_sensitive_to_the_bytes() {
    assert_eq!(shaders(), shaders());
    assert_ne!(fnv1a(&[b"abc"]), fnv1a(&[b"abd"]));
    assert_eq!(fnv1a(&[b"ab", b"c"]), fnv1a(&[b"abc"]));
    assert_ne!(fnv1a(&[b"abc", b"def"]), fnv1a(&[b"def", b"abc"]));
}

#[test]
fn the_pointwise_operator_has_its_bit_its_schema_and_its_size_refusals() {
    assert_eq!((ACK_OP_POINTWISE, ACK_OP_SCHEMA_POINTWISE), (8, 3));
    assert_eq!(ACK_OP_SCHEMA_POINTWISE, pointwise_ops::SCHEMA);
    assert_eq!(pointwise_ops::LAST_OP, 23);
    assert_eq!(
        ACK_OP_POINTWISE & (ACK_OP_MATMUL_BF16 | ACK_OP_CAST | ACK_OP_MATMUL_F32),
        0,
        "a fresh operator bit"
    );
    assert_eq!(pointwise_ops::PUSH_BYTES, 120);
    assert_eq!(ACK_ABI_VERSION, 10);
    assert_eq!(code(&ack_pointwise(NULL, None, [NULL; 4], None)), ACK_ERR_NULL);
    let short = [0u8; 64];
    assert_eq!(
        code(&ack_pointwise(NULL, None, [NULL; 4], Some(&short))),
        ACK_ERR_SIZE
    );
    let mut unknown = [0u8; pointwise_ops::PUSH_BYTES];
    unknown[..4].copy_from_slice(&(pointwise_ops::LAST_OP + 1).to_le_bytes());
    let refused = ack_pointwise(NULL, None, [NULL; 4], Some(&unknown));
    assert_eq!(code(&refused), ACK_ERR_SHAPE);
    let text = message(&refused);
    assert!(text.contains("pointwise-operation-out-of-range"), "{text}");
}

/// A sum over a contiguous view of four elements, with words replaced.
fn reduce_block(words: &[(usize, u32)]) -> [u8; reduce_ops::PUSH_BYTES] {
    let mut block = [0u8; reduce_ops::PUSH_BYTES];
    let mut put = |i: usize, w: u32| block[4 * i..4 * i + 4].copy_from_slice(&w.to_le_bytes());
    put(2, 1);
    put(3, 1);
    put(4, 4);
    put(10, 1);
    for d in 1..reduce_ops::MAX_RANK {
        put(4 + d, 1);
    }
    for &(i, w) in words {
        put(i, w);
    }
    block
}

#[test]
fn the_reduce_operator_has_its_bit_its_schema_and_its_request_refusals() {
    assert_eq!((ACK_OP_REDUCE, ACK_OP_SCHEMA_REDUCE), (16, 2));
    assert_eq!(
        ACK_OP_REDUCE & (ACK_OP_MATMUL_BF16 | ACK_OP_CAST | ACK_OP_MATMUL_F32 | ACK_OP_POINTWISE),
        0,
        "a fresh operator bit"
    );
    assert_eq!(reduce_ops::PUSH_BYTES, 80);
    assert_eq!(reduce_ops::REQUEST_BYTES, 84);
    assert_eq!(reduce_ops::STORAGE_FLAGS, 0b11);
    let call = |block: Option<&[u8]>| ack_reduce(NULL, None, NULL, NULL, NULL, block);
    assert_eq!(code(&call(None)), ACK_ERR_NULL);
    let short = [0u8; 64];
    assert_eq!(code(&call(Some(&short))), ACK_ERR_SIZE);
    let between = [0u8; 82];
    assert_eq!(code(&call(Some(&between))), ACK_ERR_SIZE);
    let over = [0u8; 88];
    assert_eq!(code(&call(Some(&over))), ACK_ERR_SIZE);
    let mut flagged = [0u8; reduce_ops::REQUEST_BYTES];
    flagged[..reduce_ops::PUSH_BYTES].copy_from_slice(&reduce_block(&[]));
    flagged[80] = 0b100;
    let refused = call(Some(&flagged));
    assert_eq!(code(&refused), ACK_ERR_SHAPE);
    let text = message(&refused);
    assert!(text.contains("reduce-storage-flags-out-of-range"), "{text}");
    for word in [0u32, 0b01, 0b10, 0b11] {
        let mut ok = [0u8; reduce_ops::REQUEST_BYTES];
        ok[..reduce_ops::PUSH_BYTES].copy_from_slice(&reduce_block(&[]));
        ok[80..].copy_from_slice(&word.to_le_bytes());
        assert_eq!(
            code(&call(Some(&ok))),
            ACK_ERR_NULL,
            "storage word {word:#b} is admitted by the request decoder"
        );
    }
    for (words, name) in [
        (&[(0usize, 3u32)][..], "reduce-operation-out-of-range"),
        (&[(1, 3)][..], "reduce-finish-out-of-range"),
        (&[(2, 7)][..], "reduce-rank-out-of-range"),
        (&[(2, 0)][..], "reduce-rank-out-of-range"),
        (&[(17, 2)][..], "reduce-reserved-word-nonzero"),
        (&[(18, 65_536)][..], "reduce-reserved-word-nonzero"),
        (
            &[
                (2, 3u32),
                (3, 0b110),
                (5, 1 << 17),
                (6, 1 << 17),
                (11, 0),
                (12, 0),
            ][..],
            "reduce-reduced-count-above-u32",
        ),
        (&[(5, 2)][..], "reduce-padding-out-of-range"),
        (&[(11, 1)][..], "reduce-padding-out-of-range"),
    ] {
        let block = reduce_block(words);
        let refused = call(Some(&block));
        assert_eq!(code(&refused), ACK_ERR_SHAPE, "{name}");
        let text = message(&refused);
        assert!(text.contains(name), "{text}");
    }
    let block = reduce_block(&[]);
    assert_eq!(code(&call(Some(&block))), ACK_ERR_NULL);
}

/// A row planner over the bounds of the row family: rows of at most `MAX_COLS`
/// elements, a billion elements in all, and a positive epsilon where the
/// operation divides by a root.
fn plan_rows(block: &[u8]) -> Result<RowShape, RowPlanError> {
    if block.len() != ROWWISE_PUSH_BYTES {
        return Err(RowPlanError::DimensionOutOfRange);
    }
    let words: Vec<u32> = block
        .chunks_exact(4)
        .map(|word| u32::from_le_bytes(word.try_into().unwrap()))
        .collect();
    let (rows, cols) = (words[0], words[1]);
    let op = RowOp::from_word(words[2])?;
    if rows == 0 || cols == 0 || rows > 1 << 20 || cols > MAX_COLS {
        return Err(RowPlanError::DimensionOutOfRange);
    }
    if u64::from(rows) * u64::from(cols) > 1 << 30 {
        return Err(RowPlanError::ElementLimitExceeded);
    }
    let epsilon = f32::from_bits(words[3]);
    let divides = matches!(op, RowOp::RmsNormForward | RowOp::RmsNormBackward);
    if divides && !(epsilon > 0.0 && epsilon.is_finite()) {
        return Err(RowPlanError::InvalidEpsilon);
    }
    let elements = rows as usize * cols as usize;
    Ok(RowShape {
        primary_len: elements,
        upstream_len: elements,
        gamma_len: cols as usize,
        output_len: elements,
        groups: [rows, 1, 1],
    })
}

#[test]
fn the_rowwise_operator_has_its_bit_its_schema_and_its_request_refusals() {
    assert_eq!((ACK_OP_ROWWISE, ACK_OP_SCHEMA_ROWWISE), (32, 1));
    assert_eq!(
        ACK_OP_ROWWISE
            & (ACK_OP_MATMUL_BF16
                | ACK_OP_CAST
                | ACK_OP_MATMUL_F32
                | ACK_OP_POINTWISE
                | ACK_OP_REDUCE),
        0,
        "a fresh operator bit"
    );
    assert_eq!(ROWWISE_PUSH_BYTES, 16);
    let call = |block: Option<&[u8]>| {
        let planned = plan_rows(block.unwrap_or(&[]));
        ack_rowwise(NULL, None, [NULL; 4], block, planned)
    };
    assert_eq!(code(&call(None)), ACK_ERR_NULL);
    let short = [0u8; 8];
    assert_eq!(code(&call(Some(&short))), ACK_ERR_SIZE);
    let block = |rows: u32, cols: u32, op: u32, eps: f32| {
        let mut b = [0u8; ROWWISE_PUSH_BYTES];
        for (i, w) in [rows, cols, op, eps.to_bits()].iter().enumerate() {
            b[4 * i..4 * i + 4].copy_from_slice(&w.to_le_bytes());
        }
        b
    };
    for (b, expected, name) in [
        (
            block(4, 8, 7, 1e-5),
            ACK_ERR_SHAPE,
            "rowwise-operation-out-of-range",
        ),
        (
            block(0, 8, 0, 1e-5),
            ACK_ERR_SHAPE,
            "rowwise-dimension-out-of-range",
        ),
        (
            block(4, MAX_COLS + 1, 0, 1e-5),
            ACK_ERR_SHAPE,
            "rowwise-dimension-out-of-range",
        ),
        (
            block(1 << 20, MAX_COLS, 5, 1e-5),
            ACK_ERR_SIZE,
            "rowwise-element-limit-exceeded",
        ),
        (
            block(4, 8, 2, 0.0),
            ACK_ERR_SHAPE,
            "rowwise-invalid-epsilon",
        ),
    ] {
        let refused = call(Some(&b));
        assert_eq!(code(&refused), expected, "{name}");
        let text = message(&refused);
        assert!(text.contains(name), "{text}");
    }
    let b = block(4, 8, 0, 1e-5);
    assert_eq!(code(&call(Some(&b))), ACK_ERR_NULL);
    assert_eq!(rowwise_reads(RowOp::SoftmaxForward), (false, false));
    assert_eq!(rowwise_reads(RowOp::SoftmaxBackward), (true, false));
    assert_eq!(rowwise_reads(RowOp::RmsNormForward), (false, true));
    assert_eq!(rowwise_reads(RowOp::RmsNormBackward), (true, true));
    assert_eq!(rowwise_reads(RowOp::RmsNormGammaReduction), (false, false));
    assert_eq!(rowwise_reads(RowOp::LogSoftmaxForward), (false, false));
    assert_eq!(rowwise_reads(RowOp::LogSoftmaxBackward), (true, false));
}

#[test]
fn the_loss_operator_has_its_bit_its_schema_and_its_plan_refusals() {
    assert_eq!((ACK_OP_LOSS, ACK_OP_SCHEMA_LOSS), (64, 1));
    assert_eq!(
        ACK_OP_LOSS
            & (ACK_OP_MATMUL_BF16
                | ACK_OP_CAST
                | ACK_OP_MATMUL_F32
                | ACK_OP_POINTWISE
                | ACK_OP_REDUCE
                | ACK_OP_ROWWISE),
        0,
        "a fresh operator bit"
    );
    assert_eq!(LOSS_PUSH_BYTES, 20);
    let targets = [0i64, 1];
    let call = |rows: u32, cols: u32, op: u32, red: u32, ignore: i64, t: Option<&[i64]>| {
        ack_loss(NULL, None, [NULL; 4], rows, cols, op, red, ignore, t)
    };
    assert_eq!(code(&call(2, 4, 3, 0, -100, None)), ACK_ERR_NULL);
    for (rows, cols, op, red, ignore, t, expected, name) in [
        (
            2u32,
            4u32,
            5u32,
            0u32,
            -100i64,
            &targets[..],
            ACK_ERR_SHAPE,
            "loss-operation-out-of-range",
        ),
        (
            2,
            4,
            3,
            3,
            -100,
            &targets[..],
            ACK_ERR_SHAPE,
            "loss-reduction-out-of-range",
        ),
        (
            0,
            4,
            3,
            0,
            -100,
            &targets[..],
            ACK_ERR_SHAPE,
            "loss-dimension-out-of-range",
        ),
        (
            2,
            4,
            2,
            0,
            -100,
            &targets[..],
            ACK_ERR_SHAPE,
            "loss-invalid-reduction-for-operation",
        ),
        (
            3,
            4,
            3,
            0,
            -100,
            &targets[..],
            ACK_ERR_SHAPE,
            "loss-target-shape-mismatch",
        ),
        (
            2,
            4,
            3,
            0,
            -100,
            &[0i64, 9][..],
            ACK_ERR_SHAPE,
            "loss-target-out-of-range",
        ),
        (
            2,
            4,
            3,
            2,
            0,
            &[0i64, 0][..],
            ACK_ERR_SHAPE,
            "loss-mean-has-no-valid-targets",
        ),
    ] {
        let refused = call(rows, cols, op, red, ignore, Some(t));
        assert_eq!(code(&refused), expected, "{name}");
        let text = message(&refused);
        assert!(text.contains(name), "{name}: {text}");
    }
    assert_eq!(code(&call(2, 4, 3, 0, -100, Some(&targets))), ACK_ERR_NULL);
    assert_eq!(loss_reads(LossOp::Forward), (true, false));
    assert_eq!(loss_reads(LossOp::Backward), (true, true));
    assert_eq!(loss_reads(LossOp::Reduce), (true, false));
    assert_eq!(loss_reads(LossOp::NllForward), (true, false));
    assert_eq!(
        loss_reads(LossOp::NllBackward),
        (false, true),
        "the NLL backward reads the target and the upstream gradient, never the logits"
    );
    let plan = LossPlan::new(
        3,
        5,
        LossOp::NllForward,
        LossReduction::NoReduction,
        -100,
        &[0, 1, 2],
    )
    .expect("a valid plan");
    assert_eq!(plan.target_bytes().len(), 3 * 4);
}

#[test]
fn the_embedding_operator_has_its_bit_its_schema_and_its_plan_refusals() {
    assert_eq!((ACK_OP_EMBEDDING, ACK_OP_SCHEMA_EMBEDDING), (128, 1));
    assert_eq!(
        ACK_OP_EMBEDDING
            & (ACK_OP_MATMUL_BF16
                | ACK_OP_CAST
                | ACK_OP_MATMUL_F32
                | ACK_OP_POINTWISE
                | ACK_OP_REDUCE
                | ACK_OP_ROWWISE
                | ACK_OP_LOSS),
        0,
        "a fresh operator bit"
    );
    assert_eq!(EMBEDDING_PUSH_BYTES, 16);
    assert_eq!(ACK_ABI_VERSION, 10);
    let ids = [0i64, 1];
    let call = |n: u32, vocab: u32, dim: u32, op: u32, t: Option<&[i64]>| {
        ack_embedding(NULL, None, [NULL; 4], n, vocab, dim, op, t)
    };
    assert_eq!(code(&call(2, 4, 3, 0, None)), ACK_ERR_NULL);
    for (n, vocab, dim, op, t, name) in [
        (
            2u32,
            4u32,
            3u32,
            2u32,
            &ids[..],
            "embedding-operation-out-of-range",
        ),
        (0, 4, 3, 0, &ids[..], "embedding-dimension-out-of-range"),
        (2, 0, 3, 0, &ids[..], "embedding-dimension-out-of-range"),
        (3, 4, 3, 0, &ids[..], "embedding-index-shape-mismatch"),
        (2, 4, 3, 0, &[0i64, 4][..], "embedding-index-out-of-range"),
        (2, 4, 3, 0, &[0i64, -1][..], "embedding-index-out-of-range"),
    ] {
        let refused = call(n, vocab, dim, op, Some(t));
        assert_eq!(code(&refused), ACK_ERR_SHAPE, "{name}");
        let text = message(&refused);
        assert!(text.contains(name), "{name}: {text}");
    }
    assert_eq!(code(&call(2, 4, 3, 0, Some(&ids))), ACK_ERR_NULL);
    let gather = EmbeddingPlan::new(2, 4, 3, EmbeddingOp::Gather, &[3, 1]).expect("a valid plan");
    assert_eq!(gather.index_bytes().len(), 2 * 4);
    assert_eq!(gather.offset_bytes().len(), 4);
    let backward =
        EmbeddingPlan::new(2, 4, 3, EmbeddingOp::Backward, &[3, 1]).expect("a valid plan");
    assert_eq!(backward.index_bytes().len(), 2 * 4);
    assert_eq!(backward.offset_bytes().len(), (4 + 1) * 4);
}

#[test]
fn device_ids_are_confined_to_the_owner_half_of_a_buffer_handle() {
    let (owner, seq) = split_buffer_handle(buffer_handle(u32::MAX as u64, 1));
    assert_eq!((owner, seq), (u32::MAX as u64, 1));
    assert_ne!(buffer_handle(1, 5), buffer_handle(2, 5));
}

#[test]
fn a_null_argument_leaves_no_message_of_its_own() {
    let refused = ack_close(NULL, None).unwrap_err();
    assert_eq!(refused.code, ACK_ERR_NULL);
    let missing = ack_abi_info(None, 0, 0).unwrap_err();
    assert_eq!(missing.reason, Reason::Unnamed);
    assert_eq!(missing.reason.message(), None);
}
