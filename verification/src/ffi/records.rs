//! The records that entries fill in for their callers, and the bytes a caller
//! sees of them.

use super::device::{device_refusal, found_model, open_device, AckDevice, DeviceModel, Slot};
use super::identity::{fnv, two_parts, FNV_OFFSET};
use super::reason::{first, unless, Reason, Record, Refusal};
use super::{
    ACK_ABI_VERSION, ACK_DEVICE_INFO_VERSION, ACK_DISPATCH_STATS_VERSION, ACK_DTYPE_BF16,
    ACK_DTYPE_F32, ACK_ERR_ABI, ACK_ERR_NULL, ACK_FEATURE_BF16_COOPERATIVE_MATRIX,
    ACK_FEATURE_BF16_DOT_PRODUCT, ACK_FEATURE_BF16_TYPE, ACK_FEATURE_COOPERATIVE_MATRIX,
    ACK_FEATURE_COOPMAT_BF16_16X16X16_SUBGROUP, ACK_FEATURE_SHADER_INT16,
    ACK_FEATURE_SUBGROUP_SIZE_CONTROL, ACK_OP_CAST, ACK_OP_EMBEDDING, ACK_OP_LOSS,
    ACK_OP_MATMUL_BF16, ACK_OP_MATMUL_F32, ACK_OP_POINTWISE, ACK_OP_REDUCE, ACK_OP_ROWWISE,
    ACK_OP_SCHEMA_CAST, ACK_OP_SCHEMA_EMBEDDING, ACK_OP_SCHEMA_LOSS, ACK_OP_SCHEMA_MATMUL_BF16,
    ACK_OP_SCHEMA_MATMUL_F32, ACK_OP_SCHEMA_POINTWISE, ACK_OP_SCHEMA_REDUCE, ACK_OP_SCHEMA_ROWWISE,
    K_MULTIPLE, TILE,
};
use crate::batch::str_eq;
use crate::context::{flush_total, DispatchStats};
use crate::device::{CoopmatShape, DeviceReport};
use crate::words::{
    high_half, high_word, law_halves_make_the_word, law_words_read_back, lemma_word_at, long_bytes,
    long_to_bytes, low_half, low_word, signed_word, word_at, word_of_signed, words_bytes,
    words_to_bytes,
};
use vstd::prelude::*;
use vstd::string::*;
use vstd::utf8::{encode_utf8, encode_utf8_valid_utf8, is_char_boundary};

verus! {

/// The library's description of its boundary. A caller requires `size` to equal
/// its own record's.
#[derive(Clone, Copy, Debug, PartialEq, Eq, Structural)]
pub struct AckAbiInfo {
    pub size: u32,
    pub version: u32,
    pub operators: u64,
    /// The shader identity.
    pub shaders: u64,
    /// The build identity.
    pub build: u64,
    pub op_schema_matmul_bf16: u32,
    pub op_schema_cast: u32,
    /// Capability versions; 0 means the capability is absent.
    pub capability_streams: u32,
    pub capability_rng: u32,
    pub capability_optimizer: u32,
    pub capability_serialization: u32,
    pub op_schema_matmul_f32: u32,
    pub op_schema_pointwise: u32,
    pub op_schema_reduce: u32,
    pub op_schema_rowwise: u32,
    pub op_schema_loss: u32,
    pub op_schema_embedding: u32,
}

impl AckAbiInfo {
    /// The record's words, field after field; a long field is its lower word, then
    /// its upper.
    pub open spec fn words(self) -> Seq<u32> {
        seq![
            self.size,
            self.version,
            low_word(self.operators),
            high_word(self.operators),
            low_word(self.shaders),
            high_word(self.shaders),
            low_word(self.build),
            high_word(self.build),
            self.op_schema_matmul_bf16,
            self.op_schema_cast,
            self.capability_streams,
            self.capability_rng,
            self.capability_optimizer,
            self.capability_serialization,
            self.op_schema_matmul_f32,
            self.op_schema_pointwise,
            self.op_schema_reduce,
            self.op_schema_rowwise,
            self.op_schema_loss,
            self.op_schema_embedding,
        ]
    }

    /// The record as its caller sees it.
    pub fn image(&self) -> (r: Vec<u8>)
        ensures
            r@ == words_bytes(self.words()),
            r@.len() == Record::AbiInfo.bytes(),
    {
        let words: [u32; 20] = [
            self.size,
            self.version,
            low_half(self.operators),
            high_half(self.operators),
            low_half(self.shaders),
            high_half(self.shaders),
            low_half(self.build),
            high_half(self.build),
            self.op_schema_matmul_bf16,
            self.op_schema_cast,
            self.capability_streams,
            self.capability_rng,
            self.capability_optimizer,
            self.capability_serialization,
            self.op_schema_matmul_f32,
            self.op_schema_pointwise,
            self.op_schema_reduce,
            self.op_schema_rowwise,
            self.op_schema_loss,
            self.op_schema_embedding,
        ];
        proof {
            assert(words@ =~= self.words());
        }
        words_to_bytes(&words)
    }
}

/// Refuse a record that the caller did not pass, or that is too short.
pub open spec fn record_refusal(out: Option<usize>, record: Record) -> Option<Refusal> {
    match out {
        None => Some(Refusal { code: ACK_ERR_NULL, reason: Reason::Unnamed }),
        Some(size) => unless(
            size >= record.bytes(),
            ACK_ERR_ABI,
            Reason::ShortRecord { record, size },
        ),
    }
}

fn check_record(out: Option<usize>, record: Record) -> (r: Result<(), Refusal>)
    ensures
        match record_refusal(out, record) {
            Some(refusal) => r is Err && r->Err_0 == refusal,
            None => r is Ok,
        },
{
    match out {
        None => Err(Refusal { code: ACK_ERR_NULL, reason: Reason::Unnamed }),
        Some(size) => if size < record.size() {
            Err(Refusal { code: ACK_ERR_ABI, reason: Reason::ShortRecord { record, size } })
        } else {
            Ok(())
        },
    }
}

/// What the library says of its boundary.
pub open spec fn abi_info(shaders: u64, build: u64) -> AckAbiInfo {
    AckAbiInfo {
        size: 80,
        version: ACK_ABI_VERSION,
        operators: 255,
        shaders,
        build,
        op_schema_matmul_bf16: ACK_OP_SCHEMA_MATMUL_BF16,
        op_schema_cast: ACK_OP_SCHEMA_CAST,
        capability_streams: 0,
        capability_rng: 0,
        capability_optimizer: 0,
        capability_serialization: 0,
        op_schema_matmul_f32: ACK_OP_SCHEMA_MATMUL_F32,
        op_schema_pointwise: ACK_OP_SCHEMA_POINTWISE,
        op_schema_reduce: ACK_OP_SCHEMA_REDUCE,
        op_schema_rowwise: ACK_OP_SCHEMA_ROWWISE,
        op_schema_loss: ACK_OP_SCHEMA_LOSS,
        op_schema_embedding: ACK_OP_SCHEMA_EMBEDDING,
    }
}

/// What the library says of its boundary to a caller with so many bytes for it.
pub fn ack_abi_info(out: Option<usize>, shaders: u64, build: u64) -> (r: Result<
    AckAbiInfo,
    Refusal,
>)
    ensures
        match record_refusal(out, Record::AbiInfo) {
            Some(refusal) => r is Err && r->Err_0 == refusal,
            None => r is Ok && r->Ok_0 == abi_info(shaders, build),
        },
{
    match check_record(out, Record::AbiInfo) {
        Ok(()) => {},
        Err(refusal) => {
            return Err(refusal);
        },
    }
    proof {
        assert(1u64 | 2 | 4 | 8 | 16 | 32 | 64 | 128 == 255) by (bit_vector);
    }
    Ok(
        AckAbiInfo {
            size: Record::AbiInfo.size() as u32,
            version: ACK_ABI_VERSION,
            operators: ACK_OP_MATMUL_BF16 | ACK_OP_CAST | ACK_OP_MATMUL_F32 | ACK_OP_POINTWISE
                | ACK_OP_REDUCE | ACK_OP_ROWWISE | ACK_OP_LOSS | ACK_OP_EMBEDDING,
            shaders,
            build,
            op_schema_matmul_bf16: ACK_OP_SCHEMA_MATMUL_BF16,
            op_schema_cast: ACK_OP_SCHEMA_CAST,
            capability_streams: 0,
            capability_rng: 0,
            capability_optimizer: 0,
            capability_serialization: 0,
            op_schema_matmul_f32: ACK_OP_SCHEMA_MATMUL_F32,
            op_schema_pointwise: ACK_OP_SCHEMA_POINTWISE,
            op_schema_reduce: ACK_OP_SCHEMA_REDUCE,
            op_schema_rowwise: ACK_OP_SCHEMA_ROWWISE,
            op_schema_loss: ACK_OP_SCHEMA_LOSS,
            op_schema_embedding: ACK_OP_SCHEMA_EMBEDDING,
        },
    )
}

/// What the dispatch instrument has counted and timed. `device_ns` is device
/// time over recorded items; it is 0 with `timestamps_enabled` 0 where nothing
/// was measured.
#[derive(Clone, Copy, Debug, PartialEq, Eq, Structural)]
pub struct AckDispatchStats {
    pub size: u32,
    pub version: u32,
    pub items: u64,
    pub commands: u64,
    pub barriers: u64,
    pub flushes: u64,
    pub timed_flushes: u64,
    pub timed_items: u64,
    pub device_ns: u64,
    pub min_item_ns: u64,
    pub max_item_ns: u64,
    pub unresolved_flushes: u64,
    pub timestamps_enabled: u32,
    pub reserved: u32,
}

impl AckDispatchStats {
    /// The record's words, field after field; a long field is its lower word, then
    /// its upper.
    pub open spec fn words(self) -> Seq<u32> {
        seq![
            self.size,
            self.version,
            low_word(self.items),
            high_word(self.items),
            low_word(self.commands),
            high_word(self.commands),
            low_word(self.barriers),
            high_word(self.barriers),
            low_word(self.flushes),
            high_word(self.flushes),
            low_word(self.timed_flushes),
            high_word(self.timed_flushes),
            low_word(self.timed_items),
            high_word(self.timed_items),
            low_word(self.device_ns),
            high_word(self.device_ns),
            low_word(self.min_item_ns),
            high_word(self.min_item_ns),
            low_word(self.max_item_ns),
            high_word(self.max_item_ns),
            low_word(self.unresolved_flushes),
            high_word(self.unresolved_flushes),
            self.timestamps_enabled,
            self.reserved,
        ]
    }

    /// The record as its caller sees it.
    pub fn image(&self) -> (r: Vec<u8>)
        ensures
            r@ == words_bytes(self.words()),
            r@.len() == Record::DispatchStats.bytes(),
    {
        let words: [u32; 24] = [
            self.size,
            self.version,
            low_half(self.items),
            high_half(self.items),
            low_half(self.commands),
            high_half(self.commands),
            low_half(self.barriers),
            high_half(self.barriers),
            low_half(self.flushes),
            high_half(self.flushes),
            low_half(self.timed_flushes),
            high_half(self.timed_flushes),
            low_half(self.timed_items),
            high_half(self.timed_items),
            low_half(self.device_ns),
            high_half(self.device_ns),
            low_half(self.min_item_ns),
            high_half(self.min_item_ns),
            low_half(self.max_item_ns),
            high_half(self.max_item_ns),
            low_half(self.unresolved_flushes),
            high_half(self.unresolved_flushes),
            self.timestamps_enabled,
            self.reserved,
        ];
        proof {
            assert(words@ =~= self.words());
        }
        words_to_bytes(&words)
    }
}

/// What the instrument of a device says.
pub open spec fn stats_of(d: DeviceModel) -> AckDispatchStats {
    let c = d.ctx;
    AckDispatchStats {
        size: 96,
        version: ACK_DISPATCH_STATS_VERSION,
        items: c.counts.items,
        commands: c.counts.commands,
        barriers: c.counts.barriers,
        flushes: flush_total(c.flushes, 9),
        timed_flushes: c.timing.flushes,
        timed_items: c.timing.items,
        device_ns: c.timing.span_ns,
        min_item_ns: if c.timing.items == 0 {
            0
        } else {
            c.timing.min_item_ns
        },
        max_item_ns: c.timing.max_item_ns,
        unresolved_flushes: c.timing.unresolved,
        timestamps_enabled: if c.tuning.timestamps {
            1
        } else {
            0
        },
        reserved: 0,
    }
}

/// What the dispatch instrument of a device has counted and timed. It moves no
/// counter and takes no flush.
pub fn ack_dispatch_stats(dev: u64, found: Option<&AckDevice>, out: Option<usize>) -> (r: Result<
    AckDispatchStats,
    Refusal,
>)
    ensures
        match first(
            record_refusal(out, Record::DispatchStats),
            device_refusal(dev, found_model(found)),
        ) {
            Some(refusal) => r is Err && r->Err_0 == refusal,
            None => r is Ok && r->Ok_0 == stats_of(found_model(found)->0),
        },
{
    match check_record(out, Record::DispatchStats) {
        Ok(()) => {},
        Err(refusal) => {
            return Err(refusal);
        },
    }
    let d: &AckDevice = match open_device(dev, found) {
        Ok(d) => d,
        Err(refusal) => {
            return Err(refusal);
        },
    };
    let s = d.context().dispatch_stats();
    Ok(
        AckDispatchStats {
            size: Record::DispatchStats.size() as u32,
            version: ACK_DISPATCH_STATS_VERSION,
            items: s.items,
            commands: s.commands,
            barriers: s.barriers,
            flushes: s.flushes,
            timed_flushes: s.timed_flushes,
            timed_items: s.timed_items,
            device_ns: s.device_ns,
            min_item_ns: s.min_item_ns,
            max_item_ns: s.max_item_ns,
            unresolved_flushes: s.unresolved_flushes,
            timestamps_enabled: if s.timestamps_enabled {
                1
            } else {
                0
            },
            reserved: 0,
        },
    )
}

/// An open device's identity, features and limits. `identity` is a hash of every
/// numeric field and the shader identity; the names are display text.
#[derive(Clone, Copy, Debug)]
pub struct AckDeviceInfo {
    pub size: u32,
    pub version: u32,
    pub api_version: u32,
    pub driver_version_raw: u32,
    pub driver_id: u32,
    pub vendor_id: u32,
    pub device_id: u32,
    pub device_type: u32,
    pub device_uuid: [u8; 16],
    pub driver_uuid: [u8; 16],
    pub features: u64,
    pub subgroup_size: u32,
    pub timestamp_valid_bits: u32,
    /// The bits of the nanoseconds that a timestamp tick takes.
    pub timestamp_period_bits: u32,
    pub max_push_constant_bytes: u32,
    pub device_local_bytes: u64,
    pub max_storage_buffer_bytes: u64,
    pub max_workgroup_invocations: u32,
    pub max_workgroup_count: [u32; 3],
    pub max_workgroup_size: [u32; 3],
    pub matmul_tile: u32,
    pub matmul_k_multiple: u32,
    pub matmul_layouts: u32,
    pub matmul_operand_dtype: u32,
    pub matmul_result_dtype: u32,
    pub cast_modes: u32,
    pub reserved: u32,
    pub identity: u64,
    pub device_name: [u8; 256],
    pub driver_name: [u8; 64],
    pub driver_info: [u8; 128],
}

fn push_array<const N: usize>(out: &mut Vec<u8>, bytes: &[u8; N])
    ensures
        final(out)@ == old(out)@ + bytes@,
{
    out.extend_from_slice(bytes);
    proof {
        assert(out@ =~= old(out)@ + bytes@);
    }
}

impl AckDeviceInfo {
    /// The words that name the device and its driver.
    pub open spec fn id_words(self) -> Seq<u32> {
        seq![
            self.api_version,
            self.driver_version_raw,
            self.driver_id,
            self.vendor_id,
            self.device_id,
            self.device_type,
        ]
    }

    /// The words that tell what the device can do.
    pub open spec fn limit_words(self) -> Seq<u32> {
        seq![
            low_word(self.features),
            high_word(self.features),
            self.subgroup_size,
            self.timestamp_valid_bits,
            self.timestamp_period_bits,
            self.max_push_constant_bytes,
            low_word(self.device_local_bytes),
            high_word(self.device_local_bytes),
            low_word(self.max_storage_buffer_bytes),
            high_word(self.max_storage_buffer_bytes),
            self.max_workgroup_invocations,
            self.max_workgroup_count@[0],
            self.max_workgroup_count@[1],
            self.max_workgroup_count@[2],
            self.max_workgroup_size@[0],
            self.max_workgroup_size@[1],
            self.max_workgroup_size@[2],
            self.matmul_tile,
            self.matmul_k_multiple,
            self.matmul_layouts,
            self.matmul_operand_dtype,
            self.matmul_result_dtype,
            self.cast_modes,
            self.reserved,
        ]
    }

    /// The numeric fields that the identity covers, from the API version to the
    /// reserved word.
    pub open spec fn numeric(self) -> Seq<u8> {
        words_bytes(self.id_words()) + self.device_uuid@ + self.driver_uuid@ + words_bytes(
            self.limit_words(),
        )
    }

    /// The numeric fields that the identity covers.
    pub fn numeric_bytes(&self) -> (r: Vec<u8>)
        ensures
            r@ == self.numeric(),
            r@.len() == 152,
    {
        let ids: [u32; 6] = [
            self.api_version,
            self.driver_version_raw,
            self.driver_id,
            self.vendor_id,
            self.device_id,
            self.device_type,
        ];
        let limits: [u32; 24] = [
            low_half(self.features),
            high_half(self.features),
            self.subgroup_size,
            self.timestamp_valid_bits,
            self.timestamp_period_bits,
            self.max_push_constant_bytes,
            low_half(self.device_local_bytes),
            high_half(self.device_local_bytes),
            low_half(self.max_storage_buffer_bytes),
            high_half(self.max_storage_buffer_bytes),
            self.max_workgroup_invocations,
            self.max_workgroup_count[0],
            self.max_workgroup_count[1],
            self.max_workgroup_count[2],
            self.max_workgroup_size[0],
            self.max_workgroup_size[1],
            self.max_workgroup_size[2],
            self.matmul_tile,
            self.matmul_k_multiple,
            self.matmul_layouts,
            self.matmul_operand_dtype,
            self.matmul_result_dtype,
            self.cast_modes,
            self.reserved,
        ];
        proof {
            assert(ids@ =~= self.id_words());
            assert(limits@ =~= self.limit_words());
        }
        let mut out = words_to_bytes(&ids);
        push_array(&mut out, &self.device_uuid);
        push_array(&mut out, &self.driver_uuid);
        let tail = words_to_bytes(&limits);
        let ghost head = out@;
        out.extend_from_slice(tail.as_slice());
        proof {
            assert(out@ =~= head + tail@);
        }
        out
    }

    /// The record's bytes, field after field.
    pub open spec fn bytes(self) -> Seq<u8> {
        words_bytes(seq![self.size, self.version]) + self.numeric() + words_bytes(
            seq![low_word(self.identity), high_word(self.identity)],
        ) + self.device_name@ + self.driver_name@ + self.driver_info@
    }

    /// The record as its caller sees it.
    pub fn image(&self) -> (r: Vec<u8>)
        ensures
            r@ == self.bytes(),
            r@.len() == Record::DeviceInfo.bytes(),
    {
        let first_words: [u32; 2] = [self.size, self.version];
        let identity: [u32; 2] = [low_half(self.identity), high_half(self.identity)];
        proof {
            assert(first_words@ =~= seq![self.size, self.version]);
            assert(identity@ =~= seq![low_word(self.identity), high_word(self.identity)]);
        }
        let mut out = words_to_bytes(&first_words);
        let numeric = self.numeric_bytes();
        let ghost head = out@;
        out.extend_from_slice(numeric.as_slice());
        proof {
            assert(out@ =~= head + numeric@);
        }
        let tail = words_to_bytes(&identity);
        let ghost middle = out@;
        out.extend_from_slice(tail.as_slice());
        proof {
            assert(out@ =~= middle + tail@);
        }
        push_array(&mut out, &self.device_name);
        push_array(&mut out, &self.driver_name);
        push_array(&mut out, &self.driver_info);
        out
    }
}

/// The identity of a record: its numeric fields and the library's shaders.
pub open spec fn info_hash(info: AckDeviceInfo, shaders: u64) -> u64 {
    fnv(FNV_OFFSET, info.numeric() + long_bytes(shaders))
}

/// The identity of a filled record: its numeric fields and the library's
/// shaders. The size, the version and the names are not part of it.
pub fn info_identity(info: &AckDeviceInfo, shaders: u64) -> (r: u64)
    ensures
        r == info_hash(*info, shaders),
{
    let head = info.numeric_bytes();
    let tail = long_to_bytes(shaders);
    two_parts(head.as_slice(), tail.as_slice())
}

/// Two records that agree in their numeric fields have one identity, whatever
/// their names, sizes and versions are.
pub proof fn law_names_are_not_identity(a: AckDeviceInfo, b: AckDeviceInfo, shaders: u64)
    requires
        a.numeric() == b.numeric(),
    ensures
        info_hash(a, shaders) == info_hash(b, shaders),
{
}

/// A change of any one byte of the numeric fields changes a record's identity.
pub proof fn law_numeric_bytes_are_identity(
    a: AckDeviceInfo,
    b: AckDeviceInfo,
    shaders: u64,
    i: int,
    v: u8,
)
    requires
        0 <= i < a.numeric().len(),
        v != a.numeric()[i],
        b.numeric() == a.numeric().update(i, v),
    ensures
        info_hash(a, shaders) != info_hash(b, shaders),
{
    let all = a.numeric() + long_bytes(shaders);
    assert(b.numeric() + long_bytes(shaders) =~= all.update(i, v));
    super::identity::law_one_byte_changes_the_identity(FNV_OFFSET, all, i, v);
}

/// The longest prefix of at most `limit` bytes that ends between characters.
pub open spec fn whole_prefix(bytes: Seq<u8>, limit: int) -> int
    decreases limit,
{
    if limit <= 0 {
        0
    } else if is_char_boundary(bytes, limit) {
        limit
    } else {
        whole_prefix(bytes, limit - 1)
    }
}

/// The bytes of a text that fit in front of a terminator in `room` bytes, cut
/// between characters.
pub open spec fn cut_text(text: Seq<char>, room: int) -> Seq<u8> {
    let bytes = encode_utf8(text);
    bytes.take(
        whole_prefix(
            bytes,
            if bytes.len() < room {
                bytes.len() as int
            } else {
                room - 1
            },
        ),
    )
}

proof fn lemma_whole_prefix_bounds(bytes: Seq<u8>, limit: int)
    requires
        limit >= 0,
    ensures
        0 <= whole_prefix(bytes, limit) <= limit,
    decreases limit,
{
    if limit > 0 && !is_char_boundary(bytes, limit) {
        lemma_whole_prefix_bounds(bytes, limit - 1);
    }
}

/// A text that was cut is a run of whole characters.
pub proof fn law_cut_text_is_whole_characters(text: Seq<char>, room: int)
    requires
        room >= 1,
    ensures
        cut_text(text, room).len() < room,
        is_char_boundary(encode_utf8(text), cut_text(text, room).len() as int),
        cut_text(text, room) == encode_utf8(text).take(cut_text(text, room).len() as int),
{
    let bytes = encode_utf8(text);
    let limit = if bytes.len() < room {
        bytes.len() as int
    } else {
        room - 1
    };
    encode_utf8_valid_utf8(text);
    lemma_whole_prefix_bounds(bytes, limit);
    lemma_whole_prefix_is_boundary(bytes, limit);
}

proof fn lemma_whole_prefix_is_boundary(bytes: Seq<u8>, limit: int)
    requires
        vstd::utf8::valid_utf8(bytes),
        limit >= 0,
    ensures
        is_char_boundary(bytes, whole_prefix(bytes, limit)),
    decreases limit,
{
    if limit == 0 {
        vstd::utf8::is_char_boundary_start_end_of_seq(bytes);
    } else if !is_char_boundary(bytes, limit) {
        lemma_whole_prefix_is_boundary(bytes, limit - 1);
    }
}

/// Copy a text into a fixed C string, cut between characters; what lies behind
/// the terminator stays as it was.
pub fn fill_c_string<const N: usize>(dst: &mut [u8; N], src: &str)
    requires
        N >= 1,
    ensures
        ({
            let text = cut_text(src@, N as int);
            final(dst)@ == text.push(0) + old(dst)@.skip(text.len() as int + 1)
        }),
{
    let bytes = src.as_bytes();
    let limit: usize = if bytes.len() < N {
        bytes.len()
    } else {
        N - 1
    };
    let mut n: usize = limit;
    while n > 0 && !src.is_char_boundary(n)
        invariant
            n <= limit < N,
            bytes@ == encode_utf8(src@),
            limit <= bytes@.len(),
            whole_prefix(bytes@, n as int) == whole_prefix(bytes@, limit as int),
        decreases n,
    {
        n -= 1;
    }
    let ghost text = cut_text(src@, N as int);
    let ghost before = dst@;
    let mut i: usize = 0;
    while i < n
        invariant
            i <= n < N,
            n <= bytes@.len(),
            forall|j: int| 0 <= j < i ==> dst@[j] == bytes@[j],
            forall|j: int| i <= j < N ==> dst@[j] == before[j],
        decreases n - i,
    {
        dst[i] = bytes[i];
        i += 1;
    }
    dst[n] = 0;
    proof {
        assert(text =~= bytes@.take(n as int));
        assert(dst@ =~= text.push(0) + before.skip(text.len() as int + 1));
    }
}

/// A cooperative shape that the BF16 product is written for.
pub open spec fn is_product_shape(s: CoopmatShape) -> bool {
    &&& s.m == 16
    &&& s.n == 16
    &&& s.k == 16
    &&& s.a_type@ == "bfloat16"@
    &&& s.b_type@ == "bfloat16"@
    &&& s.result_type@ == "float32"@
    &&& s.scope@ == "subgroup"@
}

/// The device advertises the shape that the BF16 product is written for.
pub open spec fn has_product_shape(shapes: Seq<CoopmatShape>) -> bool {
    exists|i: int| 0 <= i < shapes.len() && #[trigger] is_product_shape(shapes[i])
}

fn find_product_shape(shapes: &Vec<CoopmatShape>) -> (r: bool)
    ensures
        r == has_product_shape(shapes@),
{
    let mut i: usize = 0;
    while i < shapes.len()
        invariant
            i <= shapes.len(),
            forall|j: int| 0 <= j < i ==> !is_product_shape(#[trigger] shapes@[j]),
        decreases shapes.len() - i,
    {
        let s = &shapes[i];
        if s.m == 16 && s.n == 16 && s.k == 16 && str_eq(s.a_type.as_str(), "bfloat16") && str_eq(
            s.b_type.as_str(),
            "bfloat16",
        ) && str_eq(s.result_type.as_str(), "float32") && str_eq(s.scope.as_str(), "subgroup") {
            proof {
                assert(is_product_shape(shapes@[i as int]));
            }
            return true;
        }
        i += 1;
    }
    false
}

/// A feature's bit where the device has it.
pub open spec fn bit_of(has: bool, bit: u64) -> int {
    if has {
        bit as int
    } else {
        0
    }
}

fn feature(has: bool, bit: u64) -> (r: u64)
    ensures
        r == bit_of(has, bit),
        r <= bit,
{
    if has {
        bit
    } else {
        0
    }
}

/// The feature bits of a device: each feature has a bit of its own.
pub open spec fn feature_bits(r: DeviceReport, subgroup_size_control: bool) -> int {
    bit_of(r.cooperative_matrix, ACK_FEATURE_COOPERATIVE_MATRIX) + bit_of(
        r.bf16_type,
        ACK_FEATURE_BF16_TYPE,
    ) + bit_of(r.bf16_dot_product, ACK_FEATURE_BF16_DOT_PRODUCT) + bit_of(
        r.bf16_cooperative_matrix,
        ACK_FEATURE_BF16_COOPERATIVE_MATRIX,
    ) + bit_of(subgroup_size_control, ACK_FEATURE_SUBGROUP_SIZE_CONTROL) + bit_of(
        r.shader_int16,
        ACK_FEATURE_SHADER_INT16,
    ) + bit_of(
        has_product_shape(r.coopmat_shapes@),
        ACK_FEATURE_COOPMAT_BF16_16X16X16_SUBGROUP,
    )
}

fn features_of(r: &DeviceReport, subgroup_size_control: bool) -> (f: u64)
    ensures
        f == feature_bits(*r, subgroup_size_control),
{
    feature(r.cooperative_matrix, ACK_FEATURE_COOPERATIVE_MATRIX) + feature(
        r.bf16_type,
        ACK_FEATURE_BF16_TYPE,
    ) + feature(r.bf16_dot_product, ACK_FEATURE_BF16_DOT_PRODUCT) + feature(
        r.bf16_cooperative_matrix,
        ACK_FEATURE_BF16_COOPERATIVE_MATRIX,
    ) + feature(subgroup_size_control, ACK_FEATURE_SUBGROUP_SIZE_CONTROL) + feature(
        r.shader_int16,
        ACK_FEATURE_SHADER_INT16,
    ) + feature(
        find_product_shape(&r.coopmat_shapes),
        ACK_FEATURE_COOPMAT_BF16_16X16X16_SUBGROUP,
    )
}

/// A text in a C string of `room` bytes that was all zeros.
pub open spec fn c_string(text: Seq<char>, room: nat) -> Seq<u8> {
    let cut = cut_text(text, room as int);
    cut + Seq::new((room - cut.len()) as nat, |i: int| 0u8)
}

/// The record describes the device.
pub open spec fn describes(info: AckDeviceInfo, d: DeviceModel, shaders: u64) -> bool {
    let f = d.ctx.fixed;
    let r = f.report;
    &&& info.size == 616
    &&& info.version == ACK_DEVICE_INFO_VERSION
    &&& info.api_version == r.api_version_raw
    &&& info.driver_version_raw == r.driver_version_raw
    &&& info.driver_id == signed_word(r.driver_id)
    &&& info.vendor_id == r.vendor_id
    &&& info.device_id == r.device_id
    &&& info.device_type == r.device_type
    &&& info.device_uuid@ == r.device_uuid@
    &&& info.driver_uuid@ == r.driver_uuid@
    &&& info.features == feature_bits(r, f.subgroup_size_control)
    &&& info.subgroup_size == r.subgroup_size
    &&& info.timestamp_valid_bits == f.timestamp_valid_bits
    &&& info.timestamp_period_bits == r.timestamp_period_bits
    &&& info.max_push_constant_bytes == f.limits.max_push_constant_bytes
    &&& info.device_local_bytes == r.device_local_bytes
    &&& info.max_storage_buffer_bytes == f.limits.max_storage_buffer_bytes
    &&& info.max_workgroup_invocations == r.max_workgroup_invocations
    &&& info.max_workgroup_count@ == f.limits.max_workgroup_count@
    &&& info.max_workgroup_size@ == r.max_workgroup_size@
    &&& info.matmul_tile == TILE
    &&& info.matmul_k_multiple == K_MULTIPLE
    &&& info.matmul_layouts == (if d.has(Slot::Coopmat(0)) {
        15u32
    } else {
        0
    })
    &&& info.matmul_operand_dtype == ACK_DTYPE_BF16
    &&& info.matmul_result_dtype == ACK_DTYPE_F32
    &&& info.cast_modes == 2
    &&& info.reserved == 0
    &&& info.identity == info_hash(info, shaders)
    &&& info.device_name@ == c_string(r.device_name@, 256)
    &&& info.driver_name@ == c_string(r.driver_name@, 64)
    &&& info.driver_info@ == c_string(r.driver_info@, 128)
}

/// An open device's identity, features and limits.
pub fn ack_device_info(
    dev: u64,
    found: Option<&AckDevice>,
    out: Option<usize>,
    shaders: u64,
) -> (r: Result<AckDeviceInfo, Refusal>)
    requires
        found matches Some(d) ==> d.wf(),
    ensures
        match first(
            record_refusal(out, Record::DeviceInfo),
            device_refusal(dev, found_model(found)),
        ) {
            Some(refusal) => r is Err && r->Err_0 == refusal,
            None => r is Ok && describes(r->Ok_0, found_model(found)->0, shaders),
        },
{
    match check_record(out, Record::DeviceInfo) {
        Ok(()) => {},
        Err(refusal) => {
            return Err(refusal);
        },
    }
    let d: &AckDevice = match open_device(dev, found) {
        Ok(d) => d,
        Err(refusal) => {
            return Err(refusal);
        },
    };
    let ctx = d.context();
    let report = ctx.report();
    let limits = ctx.limits();
    let mut info = AckDeviceInfo {
        size: Record::DeviceInfo.size() as u32,
        version: ACK_DEVICE_INFO_VERSION,
        api_version: report.api_version_raw,
        driver_version_raw: report.driver_version_raw,
        driver_id: word_of_signed(report.driver_id),
        vendor_id: report.vendor_id,
        device_id: report.device_id,
        device_type: report.device_type,
        device_uuid: report.device_uuid,
        driver_uuid: report.driver_uuid,
        features: features_of(report, ctx.subgroup_size_control()),
        subgroup_size: report.subgroup_size,
        timestamp_valid_bits: ctx.timestamp_valid_bits(),
        timestamp_period_bits: report.timestamp_period_bits,
        max_push_constant_bytes: limits.max_push_constant_bytes,
        device_local_bytes: report.device_local_bytes,
        max_storage_buffer_bytes: limits.max_storage_buffer_bytes,
        max_workgroup_invocations: report.max_workgroup_invocations,
        max_workgroup_count: limits.max_workgroup_count,
        max_workgroup_size: report.max_workgroup_size,
        matmul_tile: TILE,
        matmul_k_multiple: K_MULTIPLE,
        matmul_layouts: if d.holds(Slot::Coopmat(0)) {
            15
        } else {
            0
        },
        matmul_operand_dtype: ACK_DTYPE_BF16,
        matmul_result_dtype: ACK_DTYPE_F32,
        cast_modes: 2,
        reserved: 0,
        identity: 0,
        device_name: [0; 256],
        driver_name: [0; 64],
        driver_info: [0; 128],
    };
    let identity: u64 = info_identity(&info, shaders);
    let ghost numeric = info.numeric();
    info.identity = identity;
    fill_c_string(&mut info.device_name, report.device_name.as_str());
    fill_c_string(&mut info.driver_name, report.driver_name.as_str());
    fill_c_string(&mut info.driver_info, report.driver_info.as_str());
    proof {
        assert(info.numeric() == numeric);
        law_cut_text_is_whole_characters(report.device_name@, 256);
        law_cut_text_is_whole_characters(report.driver_name@, 64);
        law_cut_text_is_whole_characters(report.driver_info@, 128);
        assert(info.device_name@ =~= c_string(report.device_name@, 256));
        assert(info.driver_name@ =~= c_string(report.driver_name@, 64));
        assert(info.driver_info@ =~= c_string(report.driver_info@, 128));
    }
    Ok(info)
}

/// Objects that a device's context has created and not destroyed.
pub fn ack_live_objects(dev: u64, found: Option<&AckDevice>, out: bool) -> (r: Result<
    i64,
    Refusal,
>)
    ensures
        match first(
            unless(out, ACK_ERR_NULL, Reason::Unnamed),
            device_refusal(dev, found_model(found)),
        ) {
            Some(refusal) => r is Err && r->Err_0 == refusal,
            None => r is Ok && r->Ok_0 == found_model(found)->0.ctx.ledger.live_objects,
        },
{
    if !out {
        return Err(Refusal { code: ACK_ERR_NULL, reason: Reason::Unnamed });
    }
    match open_device(dev, found) {
        Ok(d) => Ok(d.context().live_objects()),
        Err(refusal) => Err(refusal),
    }
}

/// Objects left allocated on purpose because the device is poisoned.
pub fn ack_leaked_on_poison(dev: u64, found: Option<&AckDevice>, out: bool) -> (r: Result<
    u64,
    Refusal,
>)
    ensures
        match first(
            unless(out, ACK_ERR_NULL, Reason::Unnamed),
            device_refusal(dev, found_model(found)),
        ) {
            Some(refusal) => r is Err && r->Err_0 == refusal,
            None => r is Ok && r->Ok_0 == found_model(found)->0.ctx.ledger.leaked,
        },
{
    if !out {
        return Err(Refusal { code: ACK_ERR_NULL, reason: Reason::Unnamed });
    }
    match open_device(dev, found) {
        Ok(d) => Ok(d.context().leaked_on_poison()),
        Err(refusal) => Err(refusal),
    }
}

/// The bytes of a text that fit in front of a terminator in `room` bytes, and
/// the terminator.
pub open spec fn terminated(text: Seq<char>, room: int) -> Seq<u8> {
    let bytes = encode_utf8(text);
    bytes.take(
        if bytes.len() < room {
            bytes.len() as int
        } else {
            room - 1
        },
    ).push(0)
}

fn terminate(text: &str, room: usize) -> (r: Vec<u8>)
    requires
        room >= 1,
    ensures
        r@ == terminated(text@, room as int),
        r@.len() <= room,
{
    let bytes = text.as_bytes();
    let n: usize = if bytes.len() < room {
        bytes.len()
    } else {
        room - 1
    };
    let mut out: Vec<u8> = Vec::new();
    let mut i: usize = 0;
    while i < n
        invariant
            i <= n <= bytes@.len(),
            out@ == bytes@.take(i as int),
        decreases n - i,
    {
        out.push(bytes[i]);
        proof {
            assert(bytes@.take(i + 1) =~= bytes@.take(i as int).push(bytes@[i as int]));
        }
        i += 1;
    }
    out.push(0);
    out
}

/// Refuse a text that the caller has no room for.
pub open spec fn room_refusal(out: Option<usize>) -> Option<Refusal> {
    unless(out is Some && out->0 != 0, ACK_ERR_NULL, Reason::Unnamed)
}

/// The device's name for a caller with so many bytes for it.
pub fn ack_device_name(dev: u64, found: Option<&AckDevice>, out: Option<usize>) -> (r: Result<
    Vec<u8>,
    Refusal,
>)
    ensures
        match first(room_refusal(out), device_refusal(dev, found_model(found))) {
            Some(refusal) => r is Err && r->Err_0 == refusal,
            None => r is Ok && r->Ok_0@ == terminated(
                found_model(found)->0.ctx.fixed.report.device_name@,
                out->0 as int,
            ) && r->Ok_0@.len() <= out->0,
        },
{
    let room: usize = match out {
        None => 0,
        Some(n) => n,
    };
    if room == 0 {
        return Err(Refusal { code: ACK_ERR_NULL, reason: Reason::Unnamed });
    }
    match open_device(dev, found) {
        Ok(d) => Ok(terminate(d.context().report().device_name.as_str(), room)),
        Err(refusal) => Err(refusal),
    }
}

/// The last message of a thread for a caller with so many bytes for it.
pub fn ack_last_error(message: &str, out: Option<usize>) -> (r: Result<Vec<u8>, Refusal>)
    ensures
        match room_refusal(out) {
            Some(refusal) => r is Err && r->Err_0 == refusal,
            None => r is Ok && r->Ok_0@ == terminated(message@, out->0 as int)
                && r->Ok_0@.len() <= out->0,
        },
{
    let room: usize = match out {
        None => 0,
        Some(n) => n,
    };
    if room == 0 {
        return Err(Refusal { code: ACK_ERR_NULL, reason: Reason::Unnamed });
    }
    Ok(terminate(message, room))
}

/// The boundary record is twenty words, its fields in order, the long ones in two
/// words with the lower first.
pub proof fn law_abi_record_holds_its_fields(r: AckAbiInfo)
    ensures
        ({
            let w = words_bytes(r.words());
            &&& w.len() == 80
            &&& word_at(w, 0) == r.size
            &&& word_at(w, 1) == r.version
            &&& word_at(w, 2) + 0x1_0000_0000 * word_at(w, 3) == r.operators
            &&& word_at(w, 4) + 0x1_0000_0000 * word_at(w, 5) == r.shaders
            &&& word_at(w, 6) + 0x1_0000_0000 * word_at(w, 7) == r.build
            &&& word_at(w, 8) == r.op_schema_matmul_bf16
            &&& word_at(w, 9) == r.op_schema_cast
            &&& word_at(w, 10) == r.capability_streams
            &&& word_at(w, 11) == r.capability_rng
            &&& word_at(w, 12) == r.capability_optimizer
            &&& word_at(w, 13) == r.capability_serialization
            &&& word_at(w, 14) == r.op_schema_matmul_f32
            &&& word_at(w, 15) == r.op_schema_pointwise
            &&& word_at(w, 16) == r.op_schema_reduce
            &&& word_at(w, 17) == r.op_schema_rowwise
            &&& word_at(w, 18) == r.op_schema_loss
            &&& word_at(w, 19) == r.op_schema_embedding
        }),
{
    law_words_read_back(r.words());
    law_halves_make_the_word(r.operators);
    law_halves_make_the_word(r.shaders);
    law_halves_make_the_word(r.build);
}

/// The statistics record is twenty-four words, its fields in order, the long ones
/// in two words with the lower first.
pub proof fn law_statistics_record_holds_its_fields(r: AckDispatchStats)
    ensures
        ({
            let w = words_bytes(r.words());
            &&& w.len() == 96
            &&& word_at(w, 0) == r.size
            &&& word_at(w, 1) == r.version
            &&& word_at(w, 2) + 0x1_0000_0000 * word_at(w, 3) == r.items
            &&& word_at(w, 4) + 0x1_0000_0000 * word_at(w, 5) == r.commands
            &&& word_at(w, 6) + 0x1_0000_0000 * word_at(w, 7) == r.barriers
            &&& word_at(w, 8) + 0x1_0000_0000 * word_at(w, 9) == r.flushes
            &&& word_at(w, 10) + 0x1_0000_0000 * word_at(w, 11) == r.timed_flushes
            &&& word_at(w, 12) + 0x1_0000_0000 * word_at(w, 13) == r.timed_items
            &&& word_at(w, 14) + 0x1_0000_0000 * word_at(w, 15) == r.device_ns
            &&& word_at(w, 16) + 0x1_0000_0000 * word_at(w, 17) == r.min_item_ns
            &&& word_at(w, 18) + 0x1_0000_0000 * word_at(w, 19) == r.max_item_ns
            &&& word_at(w, 20) + 0x1_0000_0000 * word_at(w, 21) == r.unresolved_flushes
            &&& word_at(w, 22) == r.timestamps_enabled
            &&& word_at(w, 23) == r.reserved
        }),
{
    law_words_read_back(r.words());
    law_halves_make_the_word(r.items);
    law_halves_make_the_word(r.commands);
    law_halves_make_the_word(r.barriers);
    law_halves_make_the_word(r.flushes);
    law_halves_make_the_word(r.timed_flushes);
    law_halves_make_the_word(r.timed_items);
    law_halves_make_the_word(r.device_ns);
    law_halves_make_the_word(r.min_item_ns);
    law_halves_make_the_word(r.max_item_ns);
    law_halves_make_the_word(r.unresolved_flushes);
}

/// What the library says of its boundary: its version, its eight operators and
/// their schemas, the identities it was handed, and no further capability.
pub proof fn law_boundary_is_described(shaders: u64, build: u64)
    ensures
        ({
            let r = abi_info(shaders, build);
            &&& r.size == 80
            &&& r.version == 10
            &&& r.operators == 1 + 2 + 4 + 8 + 16 + 32 + 64 + 128
            &&& r.shaders == shaders
            &&& r.build == build
            &&& r.op_schema_matmul_bf16 == 2
            &&& r.op_schema_cast == 1
            &&& r.op_schema_matmul_f32 == 2
            &&& r.op_schema_pointwise == 3
            &&& r.op_schema_reduce == 2
            &&& r.op_schema_rowwise == 1
            &&& r.op_schema_loss == 1
            &&& r.op_schema_embedding == 1
            &&& r.capability_streams == 0 && r.capability_rng == 0 && r.capability_optimizer == 0
                && r.capability_serialization == 0
        }),
{
}

/// The statistics of a device are its context's counts and times; the shortest
/// item is zero where none was timed.
pub proof fn law_statistics_are_the_context_counts(d: DeviceModel)
    ensures
        ({
            let r = stats_of(d);
            &&& r.size == 96 && r.version == 1 && r.reserved == 0
            &&& r.items == d.ctx.counts.items
            &&& r.commands == d.ctx.counts.commands
            &&& r.barriers == d.ctx.counts.barriers
            &&& r.flushes == flush_total(d.ctx.flushes, 9)
            &&& r.timed_flushes == d.ctx.timing.flushes
            &&& r.timed_items == d.ctx.timing.items
            &&& r.device_ns == d.ctx.timing.span_ns
            &&& r.max_item_ns == d.ctx.timing.max_item_ns
            &&& r.unresolved_flushes == d.ctx.timing.unresolved
            &&& d.ctx.timing.items != 0 ==> r.min_item_ns == d.ctx.timing.min_item_ns
            &&& d.ctx.timing.items == 0 ==> r.min_item_ns == 0
            &&& r.timestamps_enabled == 1 <==> d.ctx.tuning.timestamps
            &&& r.timestamps_enabled <= 1
        }),
{
}

/// A caller's record is filled exactly when it passed one that is long enough: 80
/// bytes for the boundary, 96 for the statistics, 616 for a device.
pub proof fn law_records_need_their_length(size: usize)
    ensures
        record_refusal(None, Record::AbiInfo)->0.code == -1,
        record_refusal(Some(size), Record::AbiInfo) is None <==> size >= 80,
        record_refusal(Some(size), Record::DispatchStats) is None <==> size >= 96,
        record_refusal(Some(size), Record::DeviceInfo) is None <==> size >= 616,
        record_refusal(Some(size), Record::DeviceInfo) is Some ==> record_refusal(
            Some(size),
            Record::DeviceInfo,
        )->0.code == -9,
{
}

/// Each feature is its own bit of the feature word.
pub proof fn law_features_have_bits(r: DeviceReport, subgroup_size_control: bool)
    ensures
        ({
            let f = feature_bits(r, subgroup_size_control);
            &&& 0 <= f < 128
            &&& f % 2 == 1 <==> r.cooperative_matrix
            &&& (f / 2) % 2 == 1 <==> r.bf16_type
            &&& (f / 4) % 2 == 1 <==> r.bf16_dot_product
            &&& (f / 8) % 2 == 1 <==> r.bf16_cooperative_matrix
            &&& (f / 16) % 2 == 1 <==> subgroup_size_control
            &&& (f / 32) % 2 == 1 <==> has_product_shape(r.coopmat_shapes@)
            &&& (f / 64) % 2 == 1 <==> r.shader_int16
        }),
{
}

/// The shape that the BF16 product is written for is 16 by 16 by 16, from bfloat16
/// to float32, of a subgroup.
pub proof fn law_product_shape_is_sixteen_cubed(s: CoopmatShape, shapes: Seq<CoopmatShape>, i: int)
    requires
        0 <= i < shapes.len(),
        shapes[i] == s,
        s.m == 16 && s.n == 16 && s.k == 16,
        s.a_type@ == "bfloat16"@ && s.b_type@ == "bfloat16"@ && s.result_type@ == "float32"@
            && s.scope@ == "subgroup"@,
    ensures
        has_product_shape(shapes),
{
    assert(is_product_shape(shapes[i]));
}

/// A text is cut no earlier than it must be: any longer run of its bytes that ends
/// between characters has no room for the terminator behind it.
pub proof fn law_cut_text_is_the_longest(text: Seq<char>, room: int, n: int)
    requires
        room >= 1,
        cut_text(text, room).len() < n <= encode_utf8(text).len(),
        is_char_boundary(encode_utf8(text), n),
    ensures
        n >= room,
{
    let bytes = encode_utf8(text);
    let limit = if bytes.len() < room {
        bytes.len() as int
    } else {
        room - 1
    };
    lemma_whole_prefix_bounds(bytes, limit);
    if n < room {
        lemma_whole_prefix_is_longest(bytes, limit, n);
    }
}

proof fn lemma_whole_prefix_is_longest(bytes: Seq<u8>, limit: int, n: int)
    requires
        0 <= n <= limit,
        is_char_boundary(bytes, n),
    ensures
        n <= whole_prefix(bytes, limit),
    decreases limit,
{
    if limit > 0 && !is_char_boundary(bytes, limit) {
        lemma_whole_prefix_is_longest(bytes, limit - 1, n);
    }
}

/// A C string is the cut text, a terminator, and zeros to the end of its room.
pub proof fn law_c_string_is_terminated(text: Seq<char>, room: nat, i: int)
    requires
        room >= 1,
        0 <= i < room,
    ensures
        c_string(text, room).len() == room,
        i < cut_text(text, room as int).len() ==> c_string(text, room)[i] == encode_utf8(text)[i],
        i >= cut_text(text, room as int).len() ==> c_string(text, room)[i] == 0,
        c_string(text, room)[room - 1] == 0,
{
    law_cut_text_is_whole_characters(text, room as int);
    let bytes = encode_utf8(text);
    lemma_whole_prefix_bounds(
        bytes,
        if bytes.len() < room {
            bytes.len() as int
        } else {
            room - 1
        },
    );
}

/// A text handed to a caller is as much of it as fits in front of a terminator,
/// and the terminator.
pub proof fn law_terminated_text_fits(text: Seq<char>, room: int)
    requires
        room >= 1,
    ensures
        ({
            let bytes = encode_utf8(text);
            let r = terminated(text, room);
            &&& 1 <= r.len() <= room
            &&& r.last() == 0
            &&& bytes.len() < room ==> r.drop_last() == bytes
            &&& bytes.len() >= room ==> r.len() == room && r.drop_last() == bytes.take(room - 1)
        }),
        room_refusal(None)->0.code == -1,
        room_refusal(Some(0))->0.code == -1,
{
    let bytes = encode_utf8(text);
    let r = terminated(text, room);
    if bytes.len() < room {
        assert(r.drop_last() =~= bytes);
    } else {
        assert(r.drop_last() =~= bytes.take(room - 1));
    }
}

/// Word `i` behind `k` whole words of a run of bytes.
proof fn lemma_word_behind(a: Seq<u8>, words: Seq<u32>, c: Seq<u8>, k: int, i: int)
    requires
        a.len() == 4 * k,
        0 <= i < words.len(),
    ensures
        word_at(a + words_bytes(words) + c, k + i) == words[i],
{
    let all = a + words_bytes(words) + c;
    let at = 4 * (k + i);
    assert(words_bytes(words).len() == 4 * words.len());
    assert(all.subrange(at, at + 4) =~= words_bytes(words).subrange(4 * i, 4 * i + 4));
    lemma_word_at(words, i);
}

/// The words of a device record in front of its identifiers.
pub proof fn law_device_record_holds_its_identifiers(r: AckDeviceInfo)
    ensures
        ({
            let w = r.bytes();
            &&& w.len() == 616
            &&& word_at(w, 0) == r.size
            &&& word_at(w, 1) == r.version
            &&& word_at(w, 2) == r.api_version
            &&& word_at(w, 3) == r.driver_version_raw
            &&& word_at(w, 4) == r.driver_id
            &&& word_at(w, 5) == r.vendor_id
            &&& word_at(w, 6) == r.device_id
            &&& word_at(w, 7) == r.device_type
            &&& w.subrange(32, 48) == r.device_uuid@
            &&& w.subrange(48, 64) == r.driver_uuid@
        }),
{
    let w = r.bytes();
    let head = words_bytes(seq![r.size, r.version]);
    let ids = words_bytes(r.id_words());
    let limits = words_bytes(r.limit_words());
    let identity = words_bytes(seq![low_word(r.identity), high_word(r.identity)]);
    let names = r.device_name@ + r.driver_name@ + r.driver_info@;
    assert(head.len() == 8 && ids.len() == 24 && limits.len() == 96 && identity.len() == 8);
    let after_ids = r.device_uuid@ + r.driver_uuid@ + limits + identity + names;
    assert(w =~= Seq::<u8>::empty() + head + (ids + after_ids));
    assert(w =~= head + ids + after_ids);
    lemma_word_behind(Seq::empty(), seq![r.size, r.version], ids + after_ids, 0, 0);
    lemma_word_behind(Seq::empty(), seq![r.size, r.version], ids + after_ids, 0, 1);
    lemma_word_behind(head, r.id_words(), after_ids, 2, 0);
    lemma_word_behind(head, r.id_words(), after_ids, 2, 1);
    lemma_word_behind(head, r.id_words(), after_ids, 2, 2);
    lemma_word_behind(head, r.id_words(), after_ids, 2, 3);
    lemma_word_behind(head, r.id_words(), after_ids, 2, 4);
    lemma_word_behind(head, r.id_words(), after_ids, 2, 5);
    assert(w.subrange(32, 48) =~= r.device_uuid@);
    assert(w.subrange(48, 64) =~= r.driver_uuid@);
}

/// The words of a device record behind its identifiers, its identity, and its
/// names: the limits in order from byte 64, the identity at byte 160, and the three
/// texts behind it.
pub proof fn law_device_record_holds_its_limits(r: AckDeviceInfo)
    ensures
        ({
            let w = r.bytes();
            &&& word_at(w, 16) + 0x1_0000_0000 * word_at(w, 17) == r.features
            &&& word_at(w, 18) == r.subgroup_size
            &&& word_at(w, 19) == r.timestamp_valid_bits
            &&& word_at(w, 20) == r.timestamp_period_bits
            &&& word_at(w, 21) == r.max_push_constant_bytes
            &&& word_at(w, 22) + 0x1_0000_0000 * word_at(w, 23) == r.device_local_bytes
            &&& word_at(w, 24) + 0x1_0000_0000 * word_at(w, 25) == r.max_storage_buffer_bytes
            &&& word_at(w, 26) == r.max_workgroup_invocations
            &&& word_at(w, 27) == r.max_workgroup_count@[0]
            &&& word_at(w, 28) == r.max_workgroup_count@[1]
            &&& word_at(w, 29) == r.max_workgroup_count@[2]
            &&& word_at(w, 30) == r.max_workgroup_size@[0]
            &&& word_at(w, 31) == r.max_workgroup_size@[1]
            &&& word_at(w, 32) == r.max_workgroup_size@[2]
            &&& word_at(w, 33) == r.matmul_tile
            &&& word_at(w, 34) == r.matmul_k_multiple
            &&& word_at(w, 35) == r.matmul_layouts
            &&& word_at(w, 36) == r.matmul_operand_dtype
            &&& word_at(w, 37) == r.matmul_result_dtype
            &&& word_at(w, 38) == r.cast_modes
            &&& word_at(w, 39) == r.reserved
            &&& word_at(w, 40) + 0x1_0000_0000 * word_at(w, 41) == r.identity
            &&& w.subrange(168, 424) == r.device_name@
            &&& w.subrange(424, 488) == r.driver_name@
            &&& w.subrange(488, 616) == r.driver_info@
        }),
{
    let w = r.bytes();
    let head = words_bytes(seq![r.size, r.version]);
    let ids = words_bytes(r.id_words());
    let limits = words_bytes(r.limit_words());
    let pair = seq![low_word(r.identity), high_word(r.identity)];
    let identity = words_bytes(pair);
    let names = r.device_name@ + r.driver_name@ + r.driver_info@;
    let front = head + ids + r.device_uuid@ + r.driver_uuid@;
    assert(head.len() == 8 && ids.len() == 24 && limits.len() == 96 && identity.len() == 8);
    assert(front.len() == 64);
    assert(w =~= front + limits + (identity + names));
    assert(w =~= (front + limits) + identity + names);
    assert forall|i: int| 16 <= i < 40 implies #[trigger] word_at(w, i) == r.limit_words()[i - 16] by {
        lemma_word_behind(front, r.limit_words(), identity + names, 16, i - 16);
    }
    lemma_word_behind(front + limits, pair, names, 40, 0);
    lemma_word_behind(front + limits, pair, names, 40, 1);
    law_halves_make_the_word(r.features);
    law_halves_make_the_word(r.device_local_bytes);
    law_halves_make_the_word(r.max_storage_buffer_bytes);
    law_halves_make_the_word(r.identity);
    assert(w.subrange(168, 424) =~= r.device_name@);
    assert(w.subrange(424, 488) =~= r.driver_name@);
    assert(w.subrange(488, 616) =~= r.driver_info@);
}

/// What a caller reads in a device's record is the device's own report and limits,
/// with the blocking of the BF16 product, its layouts where its kernels are there,
/// and the two casts.
pub proof fn law_described_device_is_its_report(info: AckDeviceInfo, d: DeviceModel, shaders: u64)
    requires
        describes(info, d, shaders),
    ensures
        ({
            let w = info.bytes();
            let r = d.ctx.fixed.report;
            let l = d.ctx.fixed.limits;
            &&& word_at(w, 0) == 616
            &&& word_at(w, 1) == 1
            &&& word_at(w, 2) == r.api_version_raw
            &&& word_at(w, 3) == r.driver_version_raw
            &&& word_at(w, 4) == (if r.driver_id >= 0 {
                r.driver_id as int
            } else {
                r.driver_id + 0x1_0000_0000
            })
            &&& word_at(w, 5) == r.vendor_id
            &&& word_at(w, 6) == r.device_id
            &&& word_at(w, 7) == r.device_type
            &&& w.subrange(32, 48) == r.device_uuid@
            &&& w.subrange(48, 64) == r.driver_uuid@
            &&& word_at(w, 18) == r.subgroup_size
            &&& word_at(w, 19) == d.ctx.fixed.timestamp_valid_bits
            &&& word_at(w, 20) == r.timestamp_period_bits
            &&& word_at(w, 21) == l.max_push_constant_bytes
            &&& word_at(w, 22) + 0x1_0000_0000 * word_at(w, 23) == r.device_local_bytes
            &&& word_at(w, 24) + 0x1_0000_0000 * word_at(w, 25) == l.max_storage_buffer_bytes
            &&& word_at(w, 26) == r.max_workgroup_invocations
            &&& word_at(w, 27) == l.max_workgroup_count@[0]
            &&& word_at(w, 28) == l.max_workgroup_count@[1]
            &&& word_at(w, 29) == l.max_workgroup_count@[2]
            &&& word_at(w, 30) == r.max_workgroup_size@[0]
            &&& word_at(w, 31) == r.max_workgroup_size@[1]
            &&& word_at(w, 32) == r.max_workgroup_size@[2]
            &&& word_at(w, 33) == 128
            &&& word_at(w, 34) == 32
            &&& d.has(Slot::Coopmat(0)) ==> word_at(w, 35) == 15
            &&& !d.has(Slot::Coopmat(0)) ==> word_at(w, 35) == 0
            &&& word_at(w, 36) == 1
            &&& word_at(w, 37) == 2
            &&& word_at(w, 38) == 2
            &&& word_at(w, 39) == 0
        }),
{
    law_device_record_holds_its_identifiers(info);
    law_device_record_holds_its_limits(info);
}

} // verus!
