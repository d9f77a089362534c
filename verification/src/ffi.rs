//! The C boundary: the entries' decisions on plain values, from the handles and
//! blocks a caller passes to the work that is recorded or the refusal it gets.

pub mod buffers;
pub mod device;
pub mod embedding;
pub mod identity;
pub mod loss;
pub mod matmul;
pub mod matmul_f32;
pub mod pointwise;
pub mod reason;
pub mod records;
pub mod reduce;
pub mod rowwise;
pub mod vq;

use crate::error::{AckError, Failure};
use vstd::prelude::*;

verus! {

/// The call did what it was asked.
pub const ACK_OK: i32 = 0;

/// A null pointer or handle.
pub const ACK_ERR_NULL: i32 = -1;

/// A driver call failed.
pub const ACK_ERR_VULKAN: i32 = -2;

/// A shape or an operation that cannot be run.
pub const ACK_ERR_SHAPE: i32 = -3;

/// A buffer or a block of the wrong size.
pub const ACK_ERR_SIZE: i32 = -4;

/// A close while buffers are still allocated on the device.
pub const ACK_ERR_LIVE_BUFFERS: i32 = -5;

/// The device handle is not open: closed, never opened, or not a kit handle.
pub const ACK_ERR_CLOSED: i32 = -6;

/// The buffer handle belongs to a different device than the one named.
pub const ACK_ERR_FOREIGN: i32 = -7;

/// The buffer handle is unknown to its device: freed, or never allocated.
pub const ACK_ERR_FREED: i32 = -8;

/// The caller's record is smaller than this library's.
pub const ACK_ERR_ABI: i32 = -9;

/// The device's state is unknown after a failed wait, or the device is lost.
pub const ACK_ERR_POISONED: i32 = -10;

/// The operator's kernels could not be built on this device.
pub const ACK_ERR_UNSUPPORTED_OP: i32 = -11;

/// A timed dispatch completed but its duration could not be resolved.
pub const ACK_ERR_TIMING: i32 = -12;

/// Moves whenever a signature, a code or a record of the boundary changes.
pub const ACK_ABI_VERSION: u32 = 10;

/// Operator bits.
pub const ACK_OP_MATMUL_BF16: u64 = 1;

pub const ACK_OP_CAST: u64 = 2;

pub const ACK_OP_MATMUL_F32: u64 = 4;

pub const ACK_OP_POINTWISE: u64 = 8;

pub const ACK_OP_REDUCE: u64 = 16;

pub const ACK_OP_ROWWISE: u64 = 32;

pub const ACK_OP_LOSS: u64 = 64;

pub const ACK_OP_EMBEDDING: u64 = 128;

/// Schema version of each operator's signature and semantics.
pub const ACK_OP_SCHEMA_MATMUL_BF16: u32 = 2;

pub const ACK_OP_SCHEMA_CAST: u32 = 1;

pub const ACK_OP_SCHEMA_MATMUL_F32: u32 = crate::matmul_ops::SCHEMA;

pub const ACK_OP_SCHEMA_POINTWISE: u32 = crate::pointwise_ops::SCHEMA;

pub const ACK_OP_SCHEMA_REDUCE: u32 = 2;

pub const ACK_OP_SCHEMA_ROWWISE: u32 = 1;

pub const ACK_OP_SCHEMA_LOSS: u32 = 1;

pub const ACK_OP_SCHEMA_EMBEDDING: u32 = 1;

/// The vq extension's schema, apart from the records.
pub const VQ_SCHEMA: u32 = 1;

/// The embedding family's push block: n, vocab, dim, operation.
pub const EMBEDDING_PUSH_BYTES: usize = 16;

/// The loss family's push block: rows, cols, operation, reduction, normalizer.
pub const LOSS_PUSH_BYTES: usize = 20;

/// The row family's request block: rows, cols, operation, epsilon bits.
pub const ROWWISE_PUSH_BYTES: usize = 16;

/// The vq extension's block: eight words.
pub const VQ_PUSH_BYTES: usize = 32;

/// Version of `AckDeviceInfo`.
pub const ACK_DEVICE_INFO_VERSION: u32 = 1;

/// Version of `AckDispatchStats`.
pub const ACK_DISPATCH_STATS_VERSION: u32 = 1;

/// Feature bits of `AckDeviceInfo`.
pub const ACK_FEATURE_COOPERATIVE_MATRIX: u64 = 1;

pub const ACK_FEATURE_BF16_TYPE: u64 = 2;

pub const ACK_FEATURE_BF16_DOT_PRODUCT: u64 = 4;

pub const ACK_FEATURE_BF16_COOPERATIVE_MATRIX: u64 = 8;

pub const ACK_FEATURE_SUBGROUP_SIZE_CONTROL: u64 = 16;

/// The cooperative shape that the BF16 product is written for is advertised.
pub const ACK_FEATURE_COOPMAT_BF16_16X16X16_SUBGROUP: u64 = 32;

pub const ACK_FEATURE_SHADER_INT16: u64 = 64;

/// Element type codes of `AckDeviceInfo`.
pub const ACK_DTYPE_BF16: u32 = 1;

pub const ACK_DTYPE_F32: u32 = 2;

/// The blocking factor of the BF16 product.
pub const TILE: u32 = 128;

/// The blocking factor of its reduction dimension.
pub const K_MULTIPLE: u32 = 32;

/// The operator bits of all the families.
pub open spec fn operators() -> Seq<u64> {
    seq![
        ACK_OP_MATMUL_BF16,
        ACK_OP_CAST,
        ACK_OP_MATMUL_F32,
        ACK_OP_POINTWISE,
        ACK_OP_REDUCE,
        ACK_OP_ROWWISE,
        ACK_OP_LOSS,
        ACK_OP_EMBEDDING,
    ]
}

/// Every family has an operator bit of its own: a single bit that no other
/// family's word has.
pub proof fn law_operator_bits_are_distinct(i: int, j: int)
    requires
        0 <= i < operators().len(),
        0 <= j < operators().len(),
    ensures
        operators()[i] != 0,
        operators()[i] & sub_one(operators()[i]) == 0,
        i != j ==> operators()[i] & operators()[j] == 0,
{
    assert(1u64 & 0 == 0 && 2u64 & 1 == 0 && 4u64 & 3 == 0 && 8u64 & 7 == 0 && 16u64 & 15 == 0
        && 32u64 & 31 == 0 && 64u64 & 63 == 0 && 128u64 & 127 == 0) by (bit_vector);
    assert(1u64 & 2 == 0 && 1u64 & 4 == 0 && 1u64 & 8 == 0 && 1u64 & 16 == 0 && 1u64 & 32 == 0
        && 1u64 & 64 == 0 && 1u64 & 128 == 0 && 2u64 & 4 == 0 && 2u64 & 8 == 0 && 2u64 & 16 == 0
        && 2u64 & 32 == 0 && 2u64 & 64 == 0 && 2u64 & 128 == 0 && 4u64 & 8 == 0 && 4u64 & 16 == 0
        && 4u64 & 32 == 0 && 4u64 & 64 == 0 && 4u64 & 128 == 0 && 8u64 & 16 == 0 && 8u64 & 32 == 0
        && 8u64 & 64 == 0 && 8u64 & 128 == 0 && 16u64 & 32 == 0 && 16u64 & 64 == 0 && 16u64 & 128
        == 0 && 32u64 & 64 == 0 && 32u64 & 128 == 0 && 64u64 & 128 == 0) by (bit_vector);
    assert(forall|a: u64, b: u64| a & b == b & a) by (bit_vector);
}

/// The number before a nonzero one.
pub open spec fn sub_one(n: u64) -> u64 {
    (n - 1) as u64
}

impl Failure {
    /// The code that a failure of the runtime is returned as.
    pub open spec fn code(self) -> i32 {
        match self {
            Failure::Unsupported(_) => ACK_ERR_SHAPE,
            Failure::Foreign(_) => ACK_ERR_FOREIGN,
            Failure::Freed(_) => ACK_ERR_FREED,
            Failure::Poisoned(_) => ACK_ERR_POISONED,
            Failure::AmbiguousTiming(_) => ACK_ERR_TIMING,
            _ => ACK_ERR_VULKAN,
        }
    }
}

/// The code that a failure of the runtime is returned as.
pub fn code_for(err: &AckError) -> (r: i32)
    ensures
        r == err@.code(),
{
    match err {
        AckError::Unsupported(_) => ACK_ERR_SHAPE,
        AckError::Foreign(_) => ACK_ERR_FOREIGN,
        AckError::Freed(_) => ACK_ERR_FREED,
        AckError::Poisoned(_) => ACK_ERR_POISONED,
        AckError::AmbiguousTiming(_) => ACK_ERR_TIMING,
        _ => ACK_ERR_VULKAN,
    }
}

/// Two halves of 32 bits, one word.
pub open spec fn packed(high: u64, low: u32) -> u64 {
    ((high % 0x1_0000_0000) * 0x1_0000_0000 + low) as u64
}

/// A buffer handle names its owner in the high 32 bits and the buffer in the
/// low 32; neither half is ever zero for a live buffer.
pub fn buffer_handle(device_id: u64, seq: u32) -> (r: u64)
    ensures
        r == packed(device_id, seq),
{
    proof {
        let low: u64 = seq as u64;
        assert((device_id << 32) | low == (device_id % 0x1_0000_0000) * 0x1_0000_0000 + low)
            by (bit_vector)
            requires
                low <= 0xffff_ffffu64,
        ;
    }
    (device_id << 32) | seq as u64
}

/// The (owner, sequence) pair a buffer handle encodes.
pub fn split_buffer_handle(handle: u64) -> (r: (u64, u32))
    ensures
        r.0 == handle / 0x1_0000_0000,
        r.1 == handle % 0x1_0000_0000,
{
    proof {
        assert(handle >> 32 == handle / 0x1_0000_0000) by (bit_vector);
        assert(handle & 0xffff_ffff == handle % 0x1_0000_0000) by (bit_vector);
    }
    (handle >> 32, (handle & 0xffff_ffff) as u32)
}

/// A handle splits back into the device and the sequence number it was made
/// from, and is never null for a live buffer, whose number is not 0.
pub proof fn law_handle_splits_back(device_id: u64, seq: u32)
    requires
        device_id <= u32::MAX,
    ensures
        packed(device_id, seq) / 0x1_0000_0000 == device_id,
        packed(device_id, seq) % 0x1_0000_0000 == seq,
        seq != 0 ==> packed(device_id, seq) != 0,
{
}

/// Two buffers of any devices have different handles.
pub proof fn law_handles_never_collide(d: u64, s: u32, e: u64, t: u32)
    requires
        d <= u32::MAX,
        e <= u32::MAX,
        packed(d, s) == packed(e, t),
    ensures
        d == e,
        s == t,
{
}

/// The code of a runtime failure: what is not supported is a shape, a foreign, a
/// freed, a poisoned and an ambiguous one have codes of their own, and everything
/// else is the driver's.
pub proof fn law_failures_have_codes(f: Failure)
    ensures
        f is Unsupported ==> f.code() == -3,
        f is Foreign ==> f.code() == -7,
        f is Freed ==> f.code() == -8,
        f is Poisoned ==> f.code() == -10,
        f is AmbiguousTiming ==> f.code() == -12,
        !(f is Unsupported || f is Foreign || f is Freed || f is Poisoned || f is AmbiguousTiming)
            ==> f.code() == -2,
        f.code() < 0,
{
}

/// A word packs its upper half above its lower one.
pub proof fn law_packed_word_is_its_halves(high: u64, low: u32)
    ensures
        packed(high, low) % 0x1_0000_0000 == low,
        packed(high, low) / 0x1_0000_0000 == high % 0x1_0000_0000,
{
}

} // verus!
