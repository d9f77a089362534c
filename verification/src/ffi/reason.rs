//! What a call at the C boundary refuses with: a code, and the words that the
//! caller reads back.

use crate::embedding_ops::EmbeddingPlanError;
use crate::loss_ops::LossPlanError;
use crate::matmul_ops::MatmulPlanError;
use crate::pointwise_ops::PointwisePlanError;
use crate::reduce_ops::ReducePlanError;
use crate::text::{
    append_decimal, append_signed, decimal, decimal_text, hex_text, hexadecimal, signed_text,
    wide_decimal,
};
use vstd::prelude::*;
use vstd::string::*;

verus! {

/// A family of operators, named as its messages name it.
#[derive(Clone, Copy, Debug, PartialEq, Eq, Structural)]
pub enum Family {
    Matmul,
    Pointwise,
    Reduce,
    Rowwise,
    Loss,
    Embedding,
    Vq,
}

impl Family {
    pub open spec fn text(self) -> Seq<char> {
        match self {
            Family::Matmul => "matmul_f32"@,
            Family::Pointwise => "pointwise"@,
            Family::Reduce => "reduce"@,
            Family::Rowwise => "rowwise"@,
            Family::Loss => "loss"@,
            Family::Embedding => "embedding"@,
            Family::Vq => "vq"@,
        }
    }

    pub fn name(&self) -> (r: &'static str)
        ensures
            r@ == self.text(),
    {
        match self {
            Family::Matmul => "matmul_f32",
            Family::Pointwise => "pointwise",
            Family::Reduce => "reduce",
            Family::Rowwise => "rowwise",
            Family::Loss => "loss",
            Family::Embedding => "embedding",
            Family::Vq => "vq",
        }
    }
}

/// A buffer's part in an operation.
#[derive(Clone, Copy, Debug, PartialEq, Eq, Structural)]
pub enum Part {
    Primary,
    Upstream,
    Gamma,
    Output,
    Targets,
    Indices,
    Offsets,
}

impl Part {
    pub open spec fn text(self) -> Seq<char> {
        match self {
            Part::Primary => "primary"@,
            Part::Upstream => "upstream"@,
            Part::Gamma => "gamma"@,
            Part::Output => "output"@,
            Part::Targets => "targets"@,
            Part::Indices => "indices"@,
            Part::Offsets => "offsets"@,
        }
    }

    pub fn name(&self) -> (r: &'static str)
        ensures
            r@ == self.text(),
    {
        match self {
            Part::Primary => "primary",
            Part::Upstream => "upstream",
            Part::Gamma => "gamma",
            Part::Output => "output",
            Part::Targets => "targets",
            Part::Indices => "indices",
            Part::Offsets => "offsets",
        }
    }
}

/// What is wrong with a reduction's request block.
#[derive(Clone, Copy, Debug, PartialEq, Eq, Structural)]
pub enum RequestFault {
    StorageFlags,
    Operation,
    Finish,
    Rank,
    ReducedCount,
    ReservedWord,
    Padding,
}

impl RequestFault {
    pub open spec fn text(self) -> Seq<char> {
        match self {
            RequestFault::StorageFlags => "reduce-storage-flags-out-of-range"@,
            RequestFault::Operation => "reduce-operation-out-of-range"@,
            RequestFault::Finish => "reduce-finish-out-of-range"@,
            RequestFault::Rank => "reduce-rank-out-of-range"@,
            RequestFault::ReducedCount => "reduce-reduced-count-above-u32"@,
            RequestFault::ReservedWord => "reduce-reserved-word-nonzero"@,
            RequestFault::Padding => "reduce-padding-out-of-range"@,
        }
    }

    pub fn name(&self) -> (r: &'static str)
        ensures
            r@ == self.text(),
    {
        match self {
            RequestFault::StorageFlags => "reduce-storage-flags-out-of-range",
            RequestFault::Operation => "reduce-operation-out-of-range",
            RequestFault::Finish => "reduce-finish-out-of-range",
            RequestFault::Rank => "reduce-rank-out-of-range",
            RequestFault::ReducedCount => "reduce-reduced-count-above-u32",
            RequestFault::ReservedWord => "reduce-reserved-word-nonzero",
            RequestFault::Padding => "reduce-padding-out-of-range",
        }
    }
}

/// What the row family refuses in a plan.
#[derive(Clone, Copy, Debug, PartialEq, Eq, Structural)]
pub enum RowPlanError {
    OperationOutOfRange,
    DimensionOutOfRange,
    ElementLimitExceeded,
    InvalidEpsilon,
}

impl RowPlanError {
    pub open spec fn text(self) -> Seq<char> {
        match self {
            RowPlanError::OperationOutOfRange => "rowwise-operation-out-of-range"@,
            RowPlanError::DimensionOutOfRange => "rowwise-dimension-out-of-range"@,
            RowPlanError::ElementLimitExceeded => "rowwise-element-limit-exceeded"@,
            RowPlanError::InvalidEpsilon => "rowwise-invalid-epsilon"@,
        }
    }

    pub fn name(&self) -> (r: &'static str)
        ensures
            r@ == self.text(),
    {
        match self {
            RowPlanError::OperationOutOfRange => "rowwise-operation-out-of-range",
            RowPlanError::DimensionOutOfRange => "rowwise-dimension-out-of-range",
            RowPlanError::ElementLimitExceeded => "rowwise-element-limit-exceeded",
            RowPlanError::InvalidEpsilon => "rowwise-invalid-epsilon",
        }
    }
}

/// A record that an entry fills in for its caller.
#[derive(Clone, Copy, Debug, PartialEq, Eq, Structural)]
pub enum Record {
    AbiInfo,
    DeviceInfo,
    DispatchStats,
}

impl Record {
    pub open spec fn text(self) -> Seq<char> {
        match self {
            Record::AbiInfo => "AckAbiInfo"@,
            Record::DeviceInfo => "AckDeviceInfo"@,
            Record::DispatchStats => "AckDispatchStats"@,
        }
    }

    pub fn name(&self) -> (r: &'static str)
        ensures
            r@ == self.text(),
    {
        match self {
            Record::AbiInfo => "AckAbiInfo",
            Record::DeviceInfo => "AckDeviceInfo",
            Record::DispatchStats => "AckDispatchStats",
        }
    }
}

impl Record {
    /// The bytes of the record's image.
    pub open spec fn bytes(self) -> usize {
        match self {
            Record::AbiInfo => 80,
            Record::DeviceInfo => 616,
            Record::DispatchStats => 96,
        }
    }

    /// The bytes of the record's image.
    pub fn size(&self) -> (r: usize)
        ensures
            r == self.bytes(),
    {
        match self {
            Record::AbiInfo => 80,
            Record::DeviceInfo => 616,
            Record::DispatchStats => 96,
        }
    }
}

/// What a product's three buffers hold and what they would have to hold.
#[derive(Clone, Copy, Debug, PartialEq, Eq, Structural)]
pub struct Room {
    pub a: u64,
    pub need_a: u128,
    pub b: u64,
    pub need_b: u128,
    pub c: u64,
    pub need_c: u128,
}

/// Why a call was refused.
#[allow(inconsistent_fields)]
#[derive(Clone, Copy, Debug, PartialEq, Eq, Structural)]
pub enum Reason {
    /// Refused by its code alone.
    Unnamed,
    /// The handle names no open device.
    NotOpen { id: u64 },
    /// The device was closed.
    DeviceClosed { id: u64 },
    /// The buffer is another device's.
    ForeignBuffer { raw: u64, owner: u64, id: u64 },
    /// The buffer was freed, or never allocated.
    DeadBuffer { raw: u64, id: u64 },
    /// The caller's record is smaller than this library's.
    ShortRecord { record: Record, size: usize },
    /// Buffers are still allocated on the device.
    LiveBuffers { count: usize },
    /// No known kind of fault.
    FaultKind { kind: i32 },
    /// A buffer of no bytes.
    ZeroBytes,
    /// Every buffer handle of the device was used.
    NoBufferHandle,
    /// Every device handle was used.
    NoDeviceHandle,
    /// An upload of another size than the buffer's.
    UploadSize { len: usize, bytes: u64 },
    /// A download of another size than the buffer's.
    DownloadSize { len: usize, bytes: u64 },
    /// A cast of no elements, of too many, or of no known mode.
    Cast { n: u64, mode: i32 },
    /// A cast whose buffers do not hold its elements.
    CastSmall { n: u64, mode: i32 },
    /// The device has no cast.
    NoCast,
    /// A product with an empty dimension.
    ZeroDimension { m: u32, n: u32, k: u32 },
    /// A z grid that no device is bound to hold.
    GridZ { z: u32 },
    /// No known z mode.
    ZMode { zmode: u32 },
    /// A row pitch below the stored width.
    Pitch { lda: u32, ldb: u32, a_cols: u32, b_cols: u32 },
    /// Operand strides in K-split mode.
    SplitStrides,
    /// The splits leave part of K out.
    SplitCover { z: u32, kz: u32, k: u32 },
    /// The partial products overlap.
    PartialsOverlap { zc: u32, m: u32, n: u32 },
    /// The products of a batch overlap.
    ZStrides { za: u32, zb: u32, zc: u32, a_cols: u32, b_cols: u32, m: u32, n: u32 },
    /// The output is an input's buffer.
    SharedOutput,
    /// A product's buffers do not hold it.
    SmallOperands { m: u32, n: u32, k: u32, room: Room },
    /// A z grid's buffers do not hold it.
    SmallBatch { z: u32, m: u32, n: u32, k: u32, zmode: u32, room: Room },
    /// The device has no BF16 product.
    NoBf16,
    /// A plan block of another length.
    BlockLength { family: Family, len: usize, need: usize },
    /// A reduction's block of another length.
    ReduceLength { len: usize },
    /// A vq block of another length.
    VqLength { len: usize },
    /// No vq block.
    VqNull,
    /// The device is poisoned.
    VqPoisoned,
    /// No known kind of product.
    MatmulKind { error: MatmulPlanError },
    /// The FP32 product's output is an input's buffer.
    MatmulShared,
    /// The FP32 product's plan is refused.
    Matmul { error: MatmulPlanError },
    /// The pointwise plan is refused.
    Pointwise { error: PointwisePlanError },
    /// The reduction's plan is refused.
    Reduce { error: ReducePlanError },
    /// The reduction's request is refused.
    ReduceRequest { fault: RequestFault },
    /// The reduction's output does not fit.
    ReduceOutput { have: u64, need: usize },
    /// A reduction in two passes without a buffer between them.
    NoPartials { splits: u32 },
    /// The partials are the input's or the output's buffer.
    PartialsAlias,
    /// The partials do not fit.
    ReducePartials { have: u64, need: usize },
    /// The second reduction kernel is absent.
    ReduceV2Absent,
    /// The row plan is refused.
    Rowwise { error: RowPlanError },
    /// The loss plan is refused.
    Loss { error: LossPlanError },
    /// The embedding plan is refused.
    Embedding { error: EmbeddingPlanError },
    /// A buffer holds too few elements.
    TooSmall { family: Family, part: Part, have: u64, need: u64 },
    /// A buffer is not exactly the image written into it.
    ImageMismatch { family: Family, part: Part, have: u64, need: u64 },
    /// The output is a buffer that the operation reads.
    OutputAliases { family: Family },
    /// The operator's kernel is absent.
    Absent { family: Family },
}

impl Reason {
    /// The words of a refusal, if it leaves any.
    pub open spec fn text(self) -> Option<Seq<char>> {
        match self {
            Reason::Unnamed => None,
            Reason::NotOpen { id } => Some(
                "device handle "@ + decimal_text(id as nat)
                    + " is not open (closed, never opened, or not a kit handle)"@,
            ),
            Reason::DeviceClosed { id } => Some(
                "device "@ + decimal_text(id as nat) + " is closed"@,
            ),
            Reason::ForeignBuffer { raw, owner, id } => Some(
                "buffer 0x"@ + hex_text(raw as nat) + " belongs to device "@
                    + decimal_text(owner as nat) + ", not device "@ + decimal_text(id as nat),
            ),
            Reason::DeadBuffer { raw, id } => Some(
                "buffer 0x"@ + hex_text(raw as nat) + " is not live on device "@
                    + decimal_text(id as nat) + " (freed, or never allocated)"@,
            ),
            Reason::ShortRecord { record, size } => Some(
                record.text() + " of "@ + decimal_text(size as nat)
                    + " bytes is smaller than this library's "@
                    + decimal_text(record.bytes() as nat),
            ),
            Reason::LiveBuffers { count } => Some(
                "close refused: "@ + decimal_text(count as nat)
                    + " buffer(s) still allocated on this device"@,
            ),
            Reason::FaultKind { kind } => Some(
                "ack_inject_fault: kind "@ + signed_text(kind as int)
                    + " is not 0 (wait) or 1 (idle)"@,
            ),
            Reason::ZeroBytes => Some("zero-byte buffer"@),
            Reason::NoBufferHandle => Some(
                "buffer handle space exhausted on this device; close and reopen"@,
            ),
            Reason::NoDeviceHandle => Some("device handle space exhausted in this process"@),
            Reason::UploadSize { len, bytes } => Some(
                "upload of "@ + decimal_text(len as nat) + " bytes into a "@
                    + decimal_text(bytes as nat) + "-byte buffer"@,
            ),
            Reason::DownloadSize { len, bytes } => Some(
                "download of "@ + decimal_text(len as nat) + " bytes from a "@
                    + decimal_text(bytes as nat) + "-byte buffer"@,
            ),
            Reason::Cast { n, mode } => Some(
                "cast: bad n="@ + decimal_text(n as nat) + " or mode="@ + signed_text(mode as int),
            ),
            Reason::CastSmall { n, mode } => Some(
                "cast: buffers too small for n="@ + decimal_text(n as nat) + " mode="@
                    + signed_text(mode as int),
            ),
            Reason::NoCast => Some("cast: kernel absent on this device"@),
            Reason::ZeroDimension { m, n, k } => Some(
                "shape "@ + decimal_text(m as nat) + "x"@ + decimal_text(n as nat) + "x"@
                    + decimal_text(k as nat)
                    + " has a zero dimension: the dispatch grid would be empty"@,
            ),
            Reason::GridZ { z } => Some("z "@ + decimal_text(z as nat) + " is outside 1..=65535"@),
            Reason::ZMode { zmode } => Some(
                "zmode "@ + decimal_text(zmode as nat) + " is not 0 (batch) or 1 (K-split)"@,
            ),
            Reason::Pitch { lda, ldb, a_cols, b_cols } => Some(
                "pitch "@ + decimal_text(lda as nat) + "/"@ + decimal_text(ldb as nat)
                    + " below the stored width "@ + decimal_text(a_cols as nat) + "/"@
                    + decimal_text(b_cols as nat),
            ),
            Reason::SplitStrides => Some(
                "K-split mode takes no operand z strides (za and zb must be 0)"@,
            ),
            Reason::SplitCover { z, kz, k } => Some(
                decimal_text(z as nat) + " splits of "@ + decimal_text(kz as nat)
                    + " do not cover k = "@ + decimal_text(k as nat),
            ),
            Reason::PartialsOverlap { zc, m, n } => Some(
                "partials "@ + decimal_text(zc as nat) + " elements apart overlap an "@
                    + decimal_text(m as nat) + "x"@ + decimal_text(n as nat) + " product"@,
            ),
            Reason::ZStrides { za, zb, zc, a_cols, b_cols, m, n } => Some(
                "z strides "@ + decimal_text(za as nat) + "/"@ + decimal_text(zb as nat) + "/"@
                    + decimal_text(zc as nat) + " below the row widths "@
                    + decimal_text(a_cols as nat) + "/"@ + decimal_text(b_cols as nat) + " or the "@
                    + decimal_text(m as nat) + "x"@ + decimal_text(n as nat) + " output block"@,
            ),
            Reason::SharedOutput => Some("the output buffer must be distinct from both inputs"@),
            Reason::SmallOperands { m, n, k, room } => Some(
                "buffers too small for "@ + decimal_text(m as nat) + "x"@ + decimal_text(n as nat)
                    + "x"@ + decimal_text(k as nat) + ": A "@ + decimal_text(room.a as nat)
                    + " (need "@ + decimal_text(room.need_a as nat) + "), B "@
                    + decimal_text(room.b as nat) + " (need "@ + decimal_text(room.need_b as nat)
                    + "), C "@ + decimal_text(room.c as nat) + " (need "@
                    + decimal_text(room.need_c as nat) + ")"@,
            ),
            Reason::SmallBatch { z, m, n, k, zmode, room } => Some(
                "buffers too small for "@ + decimal_text(z as nat) + " x "@ + decimal_text(m as nat)
                    + "x"@ + decimal_text(n as nat) + "x"@ + decimal_text(k as nat) + " (zmode "@
                    + decimal_text(zmode as nat) + "): A "@ + decimal_text(room.a as nat)
                    + " (need "@ + decimal_text(room.need_a as nat) + "), B "@
                    + decimal_text(room.b as nat) + " (need "@ + decimal_text(room.need_b as nat)
                    + "), C "@ + decimal_text(room.c as nat) + " (need "@
                    + decimal_text(room.need_c as nat) + ")"@,
            ),
            Reason::NoBf16 => Some(
                "BF16 cooperative-matrix matmul is not available on this device (no BF16 cooperative matrices or no subgroup size control); ack_matmul_f32 is"@,
            ),
            Reason::BlockLength { family, len, need } => Some(
                family.text() + ": the plan block is "@ + decimal_text(len as nat) + " bytes, not "@
                    + decimal_text(need as nat),
            ),
            Reason::ReduceLength { len } => Some(
                "reduce: the plan block is "@ + decimal_text(len as nat) + " bytes, not 80 or 84"@,
            ),
            Reason::VqLength { len } => Some(
                "vq: plan has "@ + decimal_text(len as nat) + " bytes, expected 32"@,
            ),
            Reason::VqNull => Some("vq: null plan"@),
            Reason::VqPoisoned => Some("vq: device poisoned by an earlier ambiguous operation"@),
            Reason::MatmulKind { error } => Some("matmul_f32: "@ + error.text()),
            Reason::MatmulShared => Some(
                "matmul_f32: the output buffer must be distinct from both inputs"@,
            ),
            Reason::Matmul { error } => Some("matmul_f32 plan refused: "@ + error.text()),
            Reason::Pointwise { error } => Some("pointwise: plan refused: "@ + error.text()),
            Reason::Reduce { error } => Some("reduce: plan refused: "@ + error.text()),
            Reason::ReduceRequest { fault } => Some("reduce: plan refused: "@ + fault.text()),
            Reason::ReduceOutput { have, need } => Some(
                "reduce: an output of "@ + decimal_text(have as nat) + " elements for "@
                    + decimal_text(need as nat) + ": plan refused: reduce-output-too-small"@,
            ),
            Reason::NoPartials { splits } => Some(
                "reduce: a two-pass plan ("@ + decimal_text(splits as nat)
                    + " splits) needs a partials buffer"@,
            ),
            Reason::PartialsAlias => Some("reduce: plan refused: reduce-partials-alias"@),
            Reason::ReducePartials { have, need } => Some(
                "reduce: partials of "@ + decimal_text(have as nat) + " elements for "@
                    + decimal_text(need as nat) + ": plan refused: reduce-partials-too-small"@,
            ),
            Reason::ReduceV2Absent => Some("reduce: v2 kernel absent on this device"@),
            Reason::Rowwise { error } => Some("rowwise: plan refused: "@ + error.text()),
            Reason::Loss { error } => Some("loss: plan refused: "@ + error.text()),
            Reason::Embedding { error } => Some("embedding: plan refused: "@ + error.text()),
            Reason::TooSmall { family, part, have, need } => Some(
                family.text() + ": "@ + part.text() + " of "@ + decimal_text(have as nat)
                    + " elements for "@ + decimal_text(need as nat) + ": plan refused: "@
                    + family.text() + "-"@ + part.text() + "-too-small"@,
            ),
            Reason::ImageMismatch { family, part, have, need } => Some(
                family.text() + ": "@ + part.text() + " buffer of "@ + decimal_text(have as nat)
                    + " bytes for an image of "@ + decimal_text(need as nat) + ": plan refused: "@
                    + family.text() + "-"@ + part.text() + "-size-mismatch"@,
            ),
            Reason::OutputAliases { family } => Some(
                family.text() + ": plan refused: "@ + family.text() + "-output-aliases-input"@,
            ),
            Reason::Absent { family } => Some(family.text() + ": kernel absent on this device"@),
        }
    }

    /// The words of this refusal, if it leaves any.
    pub fn message(&self) -> (r: Option<String>)
        ensures
            match self.text() {
                Some(text) => r is Some && r->0@ == text,
                None => r is None,
            },
    {
        let s = match *self {
            Reason::Unnamed => {
                return None;
            },
            Reason::NotOpen { id } => {
                let mut s = String::from_str("device handle ");
                append_decimal(&mut s, id);
                s.append(" is not open (closed, never opened, or not a kit handle)");
                s
            },
            Reason::DeviceClosed { id } => {
                let mut s = String::from_str("device ");
                append_decimal(&mut s, id);
                s.append(" is closed");
                s
            },
            Reason::ForeignBuffer { raw, owner, id } => {
                let mut s = String::from_str("buffer 0x");
                s.append(hexadecimal(raw).as_str());
                s.append(" belongs to device ");
                append_decimal(&mut s, owner);
                s.append(", not device ");
                append_decimal(&mut s, id);
                s
            },
            Reason::DeadBuffer { raw, id } => {
                let mut s = String::from_str("buffer 0x");
                s.append(hexadecimal(raw).as_str());
                s.append(" is not live on device ");
                append_decimal(&mut s, id);
                s.append(" (freed, or never allocated)");
                s
            },
            Reason::ShortRecord { record, size } => {
                let mut s = String::from_str(record.name());
                s.append(" of ");
                append_decimal(&mut s, size as u64);
                s.append(" bytes is smaller than this library's ");
                append_decimal(&mut s, record.size() as u64);
                s
            },
            Reason::LiveBuffers { count } => {
                let mut s = String::from_str("close refused: ");
                append_decimal(&mut s, count as u64);
                s.append(" buffer(s) still allocated on this device");
                s
            },
            Reason::FaultKind { kind } => {
                let mut s = String::from_str("ack_inject_fault: kind ");
                append_signed(&mut s, kind);
                s.append(" is not 0 (wait) or 1 (idle)");
                s
            },
            Reason::ZeroBytes => String::from_str("zero-byte buffer"),
            Reason::NoBufferHandle => String::from_str(
                "buffer handle space exhausted on this device; close and reopen",
            ),
            Reason::NoDeviceHandle => String::from_str(
                "device handle space exhausted in this process",
            ),
            Reason::UploadSize { len, bytes } => {
                let mut s = String::from_str("upload of ");
                append_decimal(&mut s, len as u64);
                s.append(" bytes into a ");
                append_decimal(&mut s, bytes);
                s.append("-byte buffer");
                s
            },
            Reason::DownloadSize { len, bytes } => {
                let mut s = String::from_str("download of ");
                append_decimal(&mut s, len as u64);
                s.append(" bytes from a ");
                append_decimal(&mut s, bytes);
                s.append("-byte buffer");
                s
            },
            Reason::Cast { n, mode } => {
                let mut s = String::from_str("cast: bad n=");
                append_decimal(&mut s, n);
                s.append(" or mode=");
                append_signed(&mut s, mode);
                s
            },
            Reason::CastSmall { n, mode } => {
                let mut s = String::from_str("cast: buffers too small for n=");
                append_decimal(&mut s, n);
                s.append(" mode=");
                append_signed(&mut s, mode);
                s
            },
            Reason::NoCast => String::from_str("cast: kernel absent on this device"),
            Reason::ZeroDimension { m, n, k } => {
                let mut s = String::from_str("shape ");
                append_decimal(&mut s, m as u64);
                s.append("x");
                append_decimal(&mut s, n as u64);
                s.append("x");
                append_decimal(&mut s, k as u64);
                s.append(" has a zero dimension: the dispatch grid would be empty");
                s
            },
            Reason::GridZ { z } => {
                let mut s = String::from_str("z ");
                append_decimal(&mut s, z as u64);
                s.append(" is outside 1..=65535");
                s
            },
            Reason::ZMode { zmode } => {
                let mut s = String::from_str("zmode ");
                append_decimal(&mut s, zmode as u64);
                s.append(" is not 0 (batch) or 1 (K-split)");
                s
            },
            Reason::Pitch { lda, ldb, a_cols, b_cols } => {
                let mut s = String::from_str("pitch ");
                append_decimal(&mut s, lda as u64);
                s.append("/");
                append_decimal(&mut s, ldb as u64);
                s.append(" below the stored width ");
                append_decimal(&mut s, a_cols as u64);
                s.append("/");
                append_decimal(&mut s, b_cols as u64);
                s
            },
            Reason::SplitStrides => String::from_str(
                "K-split mode takes no operand z strides (za and zb must be 0)",
            ),
            Reason::SplitCover { z, kz, k } => {
                let mut s = decimal(z as u64);
                s.append(" splits of ");
                append_decimal(&mut s, kz as u64);
                s.append(" do not cover k = ");
                append_decimal(&mut s, k as u64);
                s
            },
            Reason::PartialsOverlap { zc, m, n } => {
                let mut s = String::from_str("partials ");
                append_decimal(&mut s, zc as u64);
                s.append(" elements apart overlap an ");
                append_decimal(&mut s, m as u64);
                s.append("x");
                append_decimal(&mut s, n as u64);
                s.append(" product");
                s
            },
            Reason::ZStrides { za, zb, zc, a_cols, b_cols, m, n } => {
                let mut s = String::from_str("z strides ");
                append_decimal(&mut s, za as u64);
                s.append("/");
                append_decimal(&mut s, zb as u64);
                s.append("/");
                append_decimal(&mut s, zc as u64);
                s.append(" below the row widths ");
                append_decimal(&mut s, a_cols as u64);
                s.append("/");
                append_decimal(&mut s, b_cols as u64);
                s.append(" or the ");
                append_decimal(&mut s, m as u64);
                s.append("x");
                append_decimal(&mut s, n as u64);
                s.append(" output block");
                s
            },
            Reason::SharedOutput => String::from_str(
                "the output buffer must be distinct from both inputs",
            ),
            Reason::SmallOperands { m, n, k, room } => {
                let mut s = String::from_str("buffers too small for ");
                append_decimal(&mut s, m as u64);
                s.append("x");
                append_decimal(&mut s, n as u64);
                s.append("x");
                append_decimal(&mut s, k as u64);
                s.append(": A ");
                append_decimal(&mut s, room.a);
                s.append(" (need ");
                s.append(wide_decimal(room.need_a).as_str());
                s.append("), B ");
                append_decimal(&mut s, room.b);
                s.append(" (need ");
                s.append(wide_decimal(room.need_b).as_str());
                s.append("), C ");
                append_decimal(&mut s, room.c);
                s.append(" (need ");
                s.append(wide_decimal(room.need_c).as_str());
                s.append(")");
                s
            },
            Reason::SmallBatch { z, m, n, k, zmode, room } => {
                let mut s = String::from_str("buffers too small for ");
                append_decimal(&mut s, z as u64);
                s.append(" x ");
                append_decimal(&mut s, m as u64);
                s.append("x");
                append_decimal(&mut s, n as u64);
                s.append("x");
                append_decimal(&mut s, k as u64);
                s.append(" (zmode ");
                append_decimal(&mut s, zmode as u64);
                s.append("): A ");
                append_decimal(&mut s, room.a);
                s.append(" (need ");
                s.append(wide_decimal(room.need_a).as_str());
                s.append("), B ");
                append_decimal(&mut s, room.b);
                s.append(" (need ");
                s.append(wide_decimal(room.need_b).as_str());
                s.append("), C ");
                append_decimal(&mut s, room.c);
                s.append(" (need ");
                s.append(wide_decimal(room.need_c).as_str());
                s.append(")");
                s
            },
            Reason::NoBf16 => String::from_str(
                "BF16 cooperative-matrix matmul is not available on this device (no BF16 cooperative matrices or no subgroup size control); ack_matmul_f32 is",
            ),
            Reason::BlockLength { family, len, need } => {
                let mut s = String::from_str(family.name());
                s.append(": the plan block is ");
                append_decimal(&mut s, len as u64);
                s.append(" bytes, not ");
                append_decimal(&mut s, need as u64);
                s
            },
            Reason::ReduceLength { len } => {
                let mut s = String::from_str("reduce: the plan block is ");
                append_decimal(&mut s, len as u64);
                s.append(" bytes, not 80 or 84");
                s
            },
            Reason::VqLength { len } => {
                let mut s = String::from_str("vq: plan has ");
                append_decimal(&mut s, len as u64);
                s.append(" bytes, expected 32");
                s
            },
            Reason::VqNull => String::from_str("vq: null plan"),
            Reason::VqPoisoned => String::from_str(
                "vq: device poisoned by an earlier ambiguous operation",
            ),
            Reason::MatmulKind { error } => {
                let mut s = String::from_str("matmul_f32: ");
                s.append(error.name());
                s
            },
            Reason::MatmulShared => String::from_str(
                "matmul_f32: the output buffer must be distinct from both inputs",
            ),
            Reason::Matmul { error } => {
                let mut s = String::from_str("matmul_f32 plan refused: ");
                s.append(error.name());
                s
            },
            Reason::Pointwise { error } => {
                let mut s = String::from_str("pointwise: plan refused: ");
                s.append(error.name());
                s
            },
            Reason::Reduce { error } => {
                let mut s = String::from_str("reduce: plan refused: ");
                s.append(error.name());
                s
            },
            Reason::ReduceRequest { fault } => {
                let mut s = String::from_str("reduce: plan refused: ");
                s.append(fault.name());
                s
            },
            Reason::ReduceOutput { have, need } => {
                let mut s = String::from_str("reduce: an output of ");
                append_decimal(&mut s, have);
                s.append(" elements for ");
                append_decimal(&mut s, need as u64);
                s.append(": plan refused: reduce-output-too-small");
                s
            },
            Reason::NoPartials { splits } => {
                let mut s = String::from_str("reduce: a two-pass plan (");
                append_decimal(&mut s, splits as u64);
                s.append(" splits) needs a partials buffer");
                s
            },
            Reason::PartialsAlias => String::from_str(
                "reduce: plan refused: reduce-partials-alias",
            ),
            Reason::ReducePartials { have, need } => {
                let mut s = String::from_str("reduce: partials of ");
                append_decimal(&mut s, have);
                s.append(" elements for ");
                append_decimal(&mut s, need as u64);
                s.append(": plan refused: reduce-partials-too-small");
                s
            },
            Reason::ReduceV2Absent => String::from_str("reduce: v2 kernel absent on this device"),
            Reason::Rowwise { error } => {
                let mut s = String::from_str("rowwise: plan refused: ");
                s.append(error.name());
                s
            },
            Reason::Loss { error } => {
                let mut s = String::from_str("loss: plan refused: ");
                s.append(error.name());
                s
            },
            Reason::Embedding { error } => {
                let mut s = String::from_str("embedding: plan refused: ");
                s.append(error.name());
                s
            },
            Reason::TooSmall { family, part, have, need } => {
                let mut s = String::from_str(family.name());
                s.append(": ");
                s.append(part.name());
                s.append(" of ");
                append_decimal(&mut s, have);
                s.append(" elements for ");
                append_decimal(&mut s, need);
                s.append(": plan refused: ");
                s.append(family.name());
                s.append("-");
                s.append(part.name());
                s.append("-too-small");
                s
            },
            Reason::ImageMismatch { family, part, have, need } => {
                let mut s = String::from_str(family.name());
                s.append(": ");
                s.append(part.name());
                s.append(" buffer of ");
                append_decimal(&mut s, have);
                s.append(" bytes for an image of ");
                append_decimal(&mut s, need);
                s.append(": plan refused: ");
                s.append(family.name());
                s.append("-");
                s.append(part.name());
                s.append("-size-mismatch");
                s
            },
            Reason::OutputAliases { family } => {
                let mut s = String::from_str(family.name());
                s.append(": plan refused: ");
                s.append(family.name());
                s.append("-output-aliases-input");
                s
            },
            Reason::Absent { family } => {
                let mut s = String::from_str(family.name());
                s.append(": kernel absent on this device");
                s
            },
        };
        Some(s)
    }
}

/// A refusal: the code that is returned, and why.
#[derive(Clone, Copy, Debug, PartialEq, Eq, Structural)]
pub struct Refusal {
    pub code: i32,
    pub reason: Reason,
}

/// The refusal of a failed condition.
pub open spec fn unless(holds: bool, code: i32, reason: Reason) -> Option<Refusal> {
    if holds {
        None
    } else {
        Some(Refusal { code, reason })
    }
}

/// The first of two refusals that applies.
pub open spec fn first(a: Option<Refusal>, b: Option<Refusal>) -> Option<Refusal> {
    match a {
        Some(_) => a,
        None => b,
    }
}

impl Reason {
    /// The name of a refused plan.
    pub open spec fn named(self) -> Option<Seq<char>> {
        match self {
            Reason::Matmul { error } => Some(error.text()),
            Reason::Pointwise { error } => Some(error.text()),
            Reason::Reduce { error } => Some(error.text()),
            Reason::ReduceRequest { fault } => Some(fault.text()),
            Reason::ReduceOutput { .. } => Some("reduce-output-too-small"@),
            Reason::PartialsAlias => Some("reduce-partials-alias"@),
            Reason::ReducePartials { .. } => Some("reduce-partials-too-small"@),
            Reason::Rowwise { error } => Some(error.text()),
            Reason::Loss { error } => Some(error.text()),
            Reason::Embedding { error } => Some(error.text()),
            Reason::TooSmall { family, part, .. } => Some(
                family.text() + "-"@ + part.text() + "-too-small"@,
            ),
            Reason::ImageMismatch { family, part, .. } => Some(
                family.text() + "-"@ + part.text() + "-size-mismatch"@,
            ),
            Reason::OutputAliases { family } => Some(family.text() + "-output-aliases-input"@),
            _ => None,
        }
    }
}

/// The text has no colon.
pub open spec fn one_word(s: Seq<char>) -> bool {
    forall|i: int| 0 <= i < s.len() ==> #[trigger] s[i] != ':'
}

/// The word stands behind the last colon of the text.
pub open spec fn last_word(text: Seq<char>, word: Seq<char>) -> bool {
    &&& one_word(word)
    &&& exists|detail: Seq<char>| text == #[trigger] (detail + ": "@) + word
}

proof fn lemma_loss_plan_error_is_one_word(error: LossPlanError)
    ensures
        one_word(error.text()),
{
    match error {
        LossPlanError::DimensionOutOfRange => {
            reveal_strlit("loss-dimension-out-of-range");
        },
        LossPlanError::ElementLimitExceeded => {
            reveal_strlit("loss-element-limit-exceeded");
        },
        LossPlanError::OperationOutOfRange => {
            reveal_strlit("loss-operation-out-of-range");
        },
        LossPlanError::ReductionOutOfRange => {
            reveal_strlit("loss-reduction-out-of-range");
        },
        LossPlanError::InvalidReduction => {
            reveal_strlit("loss-invalid-reduction-for-operation");
        },
        LossPlanError::TargetShapeMismatch => {
            reveal_strlit("loss-target-shape-mismatch");
        },
        LossPlanError::TargetOutOfRange => {
            reveal_strlit("loss-target-out-of-range");
        },
        LossPlanError::MeanHasNoValidTargets => {
            reveal_strlit("loss-mean-has-no-valid-targets");
        },
        LossPlanError::ShapeMismatch => {
            reveal_strlit("loss-input-shape-mismatch");
        },
        LossPlanError::NonfiniteInput => {
            reveal_strlit("loss-nonfinite-input");
        },
    }
}

proof fn lemma_embedding_plan_error_is_one_word(error: EmbeddingPlanError)
    ensures
        one_word(error.text()),
{
    match error {
        EmbeddingPlanError::DimensionOutOfRange => {
            reveal_strlit("embedding-dimension-out-of-range");
        },
        EmbeddingPlanError::ElementLimitExceeded => {
            reveal_strlit("embedding-element-limit-exceeded");
        },
        EmbeddingPlanError::OperationOutOfRange => {
            reveal_strlit("embedding-operation-out-of-range");
        },
        EmbeddingPlanError::IndexShapeMismatch => {
            reveal_strlit("embedding-index-shape-mismatch");
        },
        EmbeddingPlanError::IndexOutOfRange => {
            reveal_strlit("embedding-index-out-of-range");
        },
        EmbeddingPlanError::ShapeMismatch => {
            reveal_strlit("embedding-input-shape-mismatch");
        },
        EmbeddingPlanError::NonfiniteInput => {
            reveal_strlit("embedding-nonfinite-input");
        },
    }
}

proof fn lemma_pointwise_plan_error_is_one_word(error: PointwisePlanError)
    ensures
        one_word(error.text()),
{
    match error {
        PointwisePlanError::OperationOutOfRange => {
            reveal_strlit("pointwise-operation-out-of-range");
        },
        PointwisePlanError::NdimOutOfRange => {
            reveal_strlit("pointwise-ndim-out-of-range");
        },
        PointwisePlanError::TriuNeedsTwoDimensions => {
            reveal_strlit("pointwise-triu-needs-two-dimensions");
        },
        PointwisePlanError::ZeroElements => {
            reveal_strlit("pointwise-zero-elements");
        },
        PointwisePlanError::AddressOverflow => {
            reveal_strlit("pointwise-address-overflow");
        },
        PointwisePlanError::OutputOverlapsInput => {
            reveal_strlit("pointwise-output-overlaps-input");
        },
        PointwisePlanError::OutputSelfOverlap => {
            reveal_strlit("pointwise-output-self-overlap");
        },
        PointwisePlanError::FlagsOutOfRange => {
            reveal_strlit("pointwise-flags-out-of-range");
        },
        PointwisePlanError::ElementCountMismatch => {
            reveal_strlit("pointwise-element-count-mismatch");
        },
    }
}

proof fn lemma_reduce_plan_error_is_one_word(error: ReducePlanError)
    ensures
        one_word(error.text()),
{
    match error {
        ReducePlanError::RankOutOfRange => {
            reveal_strlit("reduce-rank-out-of-range");
        },
        ReducePlanError::ZeroExtent => {
            reveal_strlit("reduce-zero-extent");
        },
        ReducePlanError::AddressOutOfRange => {
            reveal_strlit("reduce-address-out-of-range");
        },
        ReducePlanError::ReducedMaskInvalid => {
            reveal_strlit("reduce-reduced-mask-invalid");
        },
        ReducePlanError::InvalidScale => {
            reveal_strlit("reduce-invalid-scale");
        },
        ReducePlanError::TooManyWorkgroups => {
            reveal_strlit("reduce-too-many-workgroups");
        },
        ReducePlanError::CapacityTooSmall => {
            reveal_strlit("reduce-capacity-too-small");
        },
        ReducePlanError::StorageFlagsOutOfRange => {
            reveal_strlit("reduce-storage-flags-out-of-range");
        },
    }
}

proof fn lemma_matmul_plan_error_is_one_word(error: MatmulPlanError)
    ensures
        one_word(error.text()),
{
    match error {
        MatmulPlanError::OperationOutOfRange => {
            reveal_strlit("matmul-operation-out-of-range");
        },
        MatmulPlanError::DimensionOutOfRange => {
            reveal_strlit("matmul-dimension-out-of-range");
        },
        MatmulPlanError::DimensionMismatch => {
            reveal_strlit("matmul-dimension-mismatch");
        },
        MatmulPlanError::BatchMismatch => {
            reveal_strlit("matmul-batch-mismatch");
        },
        MatmulPlanError::MmRequiresSingleBatch => {
            reveal_strlit("matmul-mm-requires-single-batch");
        },
        MatmulPlanError::ZeroStride => {
            reveal_strlit("matmul-zero-stride");
        },
        MatmulPlanError::AddressOverflow => {
            reveal_strlit("matmul-address-overflow");
        },
        MatmulPlanError::AddressLimitExceeded => {
            reveal_strlit("matmul-address-limit-exceeded");
        },
        MatmulPlanError::CapacityTooSmall => {
            reveal_strlit("matmul-capacity-too-small");
        },
        MatmulPlanError::OutputOverlap => {
            reveal_strlit("matmul-output-overlap");
        },
    }
}

proof fn lemma_family_is_one_word(family: Family)
    ensures
        one_word(family.text()),
{
    match family {
        Family::Matmul => {
            reveal_strlit("matmul_f32");
        },
        Family::Pointwise => {
            reveal_strlit("pointwise");
        },
        Family::Reduce => {
            reveal_strlit("reduce");
        },
        Family::Rowwise => {
            reveal_strlit("rowwise");
        },
        Family::Loss => {
            reveal_strlit("loss");
        },
        Family::Embedding => {
            reveal_strlit("embedding");
        },
        Family::Vq => {
            reveal_strlit("vq");
        },
    }
}

proof fn lemma_part_is_one_word(part: Part)
    ensures
        one_word(part.text()),
{
    match part {
        Part::Primary => {
            reveal_strlit("primary");
        },
        Part::Upstream => {
            reveal_strlit("upstream");
        },
        Part::Gamma => {
            reveal_strlit("gamma");
        },
        Part::Output => {
            reveal_strlit("output");
        },
        Part::Targets => {
            reveal_strlit("targets");
        },
        Part::Indices => {
            reveal_strlit("indices");
        },
        Part::Offsets => {
            reveal_strlit("offsets");
        },
    }
}

proof fn lemma_request_fault_is_one_word(fault: RequestFault)
    ensures
        one_word(fault.text()),
{
    match fault {
        RequestFault::StorageFlags => {
            reveal_strlit("reduce-storage-flags-out-of-range");
        },
        RequestFault::Operation => {
            reveal_strlit("reduce-operation-out-of-range");
        },
        RequestFault::Finish => {
            reveal_strlit("reduce-finish-out-of-range");
        },
        RequestFault::Rank => {
            reveal_strlit("reduce-rank-out-of-range");
        },
        RequestFault::ReducedCount => {
            reveal_strlit("reduce-reduced-count-above-u32");
        },
        RequestFault::ReservedWord => {
            reveal_strlit("reduce-reserved-word-nonzero");
        },
        RequestFault::Padding => {
            reveal_strlit("reduce-padding-out-of-range");
        },
    }
}

proof fn lemma_row_plan_error_is_one_word(error: RowPlanError)
    ensures
        one_word(error.text()),
{
    match error {
        RowPlanError::OperationOutOfRange => {
            reveal_strlit("rowwise-operation-out-of-range");
        },
        RowPlanError::DimensionOutOfRange => {
            reveal_strlit("rowwise-dimension-out-of-range");
        },
        RowPlanError::ElementLimitExceeded => {
            reveal_strlit("rowwise-element-limit-exceeded");
        },
        RowPlanError::InvalidEpsilon => {
            reveal_strlit("rowwise-invalid-epsilon");
        },
    }
}

/// A word behind a text that ends in a colon and a space.
proof fn lemma_last_word(detail: Seq<char>, literal: Seq<char>, start: Seq<char>, word: Seq<char>)
    requires
        one_word(word),
        literal =~= start + ": "@,
    ensures
        last_word(detail + literal + word, word),
{
    assert((detail + start) + ": "@ =~= detail + literal);
    assert(detail + literal + word == ((detail + start) + ": "@) + word);
}

/// A word behind a text that ends in a colon and a space, in one literal.
proof fn lemma_last_literal(detail: Seq<char>, literal: Seq<char>, start: Seq<char>, word: Seq<char>)
    requires
        one_word(word),
        literal =~= start + ": "@ + word,
    ensures
        last_word(detail + literal, word),
{
    assert(detail + literal =~= ((detail + start) + ": "@) + word);
}

/// A family's plan refused by a name.
proof fn lemma_family_prefix(family: Family, word: Seq<char>)
    requires
        one_word(word),
    ensures
        family is Pointwise ==> last_word("pointwise: plan refused: "@ + word, word),
        family is Reduce ==> last_word("reduce: plan refused: "@ + word, word),
        family is Rowwise ==> last_word("rowwise: plan refused: "@ + word, word),
        family is Loss ==> last_word("loss: plan refused: "@ + word, word),
        family is Embedding ==> last_word("embedding: plan refused: "@ + word, word),
{
    let none = Seq::<char>::empty();
    reveal_strlit(": ");
    match family {
        Family::Pointwise => {
            reveal_strlit("pointwise: plan refused: ");
            reveal_strlit("pointwise: plan refused");
            lemma_last_word(
                none,
                "pointwise: plan refused: "@,
                "pointwise: plan refused"@,
                word,
            );
            assert(none + "pointwise: plan refused: "@ =~= "pointwise: plan refused: "@);
        },
        Family::Reduce => {
            reveal_strlit("reduce: plan refused: ");
            reveal_strlit("reduce: plan refused");
            lemma_last_word(
                none,
                "reduce: plan refused: "@,
                "reduce: plan refused"@,
                word,
            );
            assert(none + "reduce: plan refused: "@ =~= "reduce: plan refused: "@);
        },
        Family::Rowwise => {
            reveal_strlit("rowwise: plan refused: ");
            reveal_strlit("rowwise: plan refused");
            lemma_last_word(
                none,
                "rowwise: plan refused: "@,
                "rowwise: plan refused"@,
                word,
            );
            assert(none + "rowwise: plan refused: "@ =~= "rowwise: plan refused: "@);
        },
        Family::Loss => {
            reveal_strlit("loss: plan refused: ");
            reveal_strlit("loss: plan refused");
            lemma_last_word(
                none,
                "loss: plan refused: "@,
                "loss: plan refused"@,
                word,
            );
            assert(none + "loss: plan refused: "@ =~= "loss: plan refused: "@);
        },
        Family::Embedding => {
            reveal_strlit("embedding: plan refused: ");
            reveal_strlit("embedding: plan refused");
            lemma_last_word(
                none,
                "embedding: plan refused: "@,
                "embedding: plan refused"@,
                word,
            );
            assert(none + "embedding: plan refused: "@ =~= "embedding: plan refused: "@);
        },
        _ => {},
    }
}

/// A buffer of the wrong size, by the name of its part.
proof fn lemma_measured(detail: Seq<char>, family: Family, part: Part, ending: Seq<char>)
    requires
        one_word(ending),
    ensures
        last_word(
            detail + ": plan refused: "@ + family.text() + "-"@ + part.text() + ending,
            family.text() + "-"@ + part.text() + ending,
        ),
{
    lemma_family_is_one_word(family);
    lemma_part_is_one_word(part);
    let word = family.text() + "-"@ + part.text() + ending;
    assert(one_word(word)) by {
        reveal_strlit("-");
    }
    assert(": plan refused: "@ =~= ": plan refused"@ + ": "@) by {
        reveal_strlit(": ");
        reveal_strlit(": plan refused: ");
        reveal_strlit(": plan refused");
    }
    lemma_last_word(detail, ": plan refused: "@, ": plan refused"@, word);
    let front = detail + ": plan refused: "@;
    assert(front + word =~= front + family.text() + "-"@ + part.text() + ending);
}

/// An output that is an input's buffer.
proof fn lemma_aliased(family: Family)
    ensures
        last_word(
            family.text() + ": plan refused: "@ + family.text() + "-output-aliases-input"@,
            family.text() + "-output-aliases-input"@,
        ),
{
    lemma_family_is_one_word(family);
    let word = family.text() + "-output-aliases-input"@;
    assert(one_word(word)) by {
        reveal_strlit("-output-aliases-input");
    }
    assert(": plan refused: "@ =~= ": plan refused"@ + ": "@) by {
        reveal_strlit(": ");
        reveal_strlit(": plan refused: ");
        reveal_strlit(": plan refused");
    }
    lemma_last_word(family.text(), ": plan refused: "@, ": plan refused"@, word);
    let front = family.text() + ": plan refused: "@;
    assert(front + word =~= front + family.text() + "-output-aliases-input"@);
}

/// A refused plan leaves a message whose last word behind a colon is the name
/// of the refusal.
pub proof fn law_refused_plan_is_named_last(r: Reason)
    requires
        r.named() is Some,
    ensures
        r.text() is Some,
        last_word(r.text()->0, r.named()->0),
{
    let none = Seq::<char>::empty();
    reveal_strlit(": ");
    match r {
        Reason::Matmul { error } => {
            lemma_matmul_plan_error_is_one_word(error);
            reveal_strlit("matmul_f32 plan refused: ");
            reveal_strlit("matmul_f32 plan refused");
            lemma_last_word(
                none,
                "matmul_f32 plan refused: "@,
                "matmul_f32 plan refused"@,
                error.text(),
            );
            assert(none + "matmul_f32 plan refused: "@ =~= "matmul_f32 plan refused: "@);
        },
        Reason::Pointwise { error } => {
            lemma_pointwise_plan_error_is_one_word(error);
            lemma_family_prefix(Family::Pointwise, error.text());
        },
        Reason::Reduce { error } => {
            lemma_reduce_plan_error_is_one_word(error);
            lemma_family_prefix(Family::Reduce, error.text());
        },
        Reason::ReduceRequest { fault } => {
            lemma_request_fault_is_one_word(fault);
            lemma_family_prefix(Family::Reduce, fault.text());
        },
        Reason::ReduceOutput { have, need } => {
            reveal_strlit(": plan refused: reduce-output-too-small");
            reveal_strlit(": plan refused");
            reveal_strlit("reduce-output-too-small");
            lemma_last_literal(
                "reduce: an output of "@ + decimal_text(have as nat) + " elements for "@
                    + decimal_text(need as nat),
                ": plan refused: reduce-output-too-small"@,
                ": plan refused"@,
                "reduce-output-too-small"@,
            );
        },
        Reason::PartialsAlias => {
            reveal_strlit("reduce: plan refused: reduce-partials-alias");
            reveal_strlit("reduce: plan refused");
            reveal_strlit("reduce-partials-alias");
            lemma_last_literal(
                none,
                "reduce: plan refused: reduce-partials-alias"@,
                "reduce: plan refused"@,
                "reduce-partials-alias"@,
            );
            assert(none + "reduce: plan refused: reduce-partials-alias"@
                =~= "reduce: plan refused: reduce-partials-alias"@);
        },
        Reason::ReducePartials { have, need } => {
            reveal_strlit(": plan refused: reduce-partials-too-small");
            reveal_strlit(": plan refused");
            reveal_strlit("reduce-partials-too-small");
            lemma_last_literal(
                "reduce: partials of "@ + decimal_text(have as nat) + " elements for "@
                    + decimal_text(need as nat),
                ": plan refused: reduce-partials-too-small"@,
                ": plan refused"@,
                "reduce-partials-too-small"@,
            );
        },
        Reason::Rowwise { error } => {
            lemma_row_plan_error_is_one_word(error);
            lemma_family_prefix(Family::Rowwise, error.text());
        },
        Reason::Loss { error } => {
            lemma_loss_plan_error_is_one_word(error);
            lemma_family_prefix(Family::Loss, error.text());
        },
        Reason::Embedding { error } => {
            lemma_embedding_plan_error_is_one_word(error);
            lemma_family_prefix(Family::Embedding, error.text());
        },
        Reason::TooSmall { family, part, have, need } => {
            reveal_strlit("-too-small");
            lemma_measured(
                family.text() + ": "@ + part.text() + " of "@ + decimal_text(have as nat)
                    + " elements for "@ + decimal_text(need as nat),
                family,
                part,
                "-too-small"@,
            );
        },
        Reason::ImageMismatch { family, part, have, need } => {
            reveal_strlit("-size-mismatch");
            lemma_measured(
                family.text() + ": "@ + part.text() + " buffer of "@ + decimal_text(have as nat)
                    + " bytes for an image of "@ + decimal_text(need as nat),
                family,
                part,
                "-size-mismatch"@,
            );
        },
        Reason::OutputAliases { family } => {
            lemma_aliased(family);
        },
        _ => {},
    }
}

/// Each family of operators has its own name.
pub proof fn law_families_are_named()
    ensures
        Family::Matmul.text() == "matmul_f32"@,
        Family::Pointwise.text() == "pointwise"@,
        Family::Reduce.text() == "reduce"@,
        Family::Rowwise.text() == "rowwise"@,
        Family::Loss.text() == "loss"@,
        Family::Embedding.text() == "embedding"@,
        Family::Vq.text() == "vq"@,
{
}

/// Each part that a buffer has is called by its own name.
pub proof fn law_parts_are_named()
    ensures
        Part::Primary.text() == "primary"@,
        Part::Upstream.text() == "upstream"@,
        Part::Gamma.text() == "gamma"@,
        Part::Output.text() == "output"@,
        Part::Targets.text() == "targets"@,
        Part::Indices.text() == "indices"@,
        Part::Offsets.text() == "offsets"@,
{
}

/// Each fault of a reduction block has its own name.
pub proof fn law_request_faults_are_named()
    ensures
        RequestFault::StorageFlags.text() == "reduce-storage-flags-out-of-range"@,
        RequestFault::Operation.text() == "reduce-operation-out-of-range"@,
        RequestFault::Finish.text() == "reduce-finish-out-of-range"@,
        RequestFault::Rank.text() == "reduce-rank-out-of-range"@,
        RequestFault::ReducedCount.text() == "reduce-reduced-count-above-u32"@,
        RequestFault::ReservedWord.text() == "reduce-reserved-word-nonzero"@,
        RequestFault::Padding.text() == "reduce-padding-out-of-range"@,
{
}

/// Each refusal of a row plan has its own name.
pub proof fn law_row_errors_are_named()
    ensures
        RowPlanError::OperationOutOfRange.text() == "rowwise-operation-out-of-range"@,
        RowPlanError::DimensionOutOfRange.text() == "rowwise-dimension-out-of-range"@,
        RowPlanError::ElementLimitExceeded.text() == "rowwise-element-limit-exceeded"@,
        RowPlanError::InvalidEpsilon.text() == "rowwise-invalid-epsilon"@,
{
}

/// Each record has its name and its size in bytes.
pub proof fn law_records_are_named_and_measured()
    ensures
        Record::AbiInfo.text() == "AckAbiInfo"@,
        Record::DeviceInfo.text() == "AckDeviceInfo"@,
        Record::DispatchStats.text() == "AckDispatchStats"@,
        Record::AbiInfo.bytes() == 80,
        Record::DeviceInfo.bytes() == 616,
        Record::DispatchStats.bytes() == 96,
{
}

/// A refusal at the boundary tells the handle, the sizes or the kind that were
/// met, and what they would have to be.
pub proof fn law_boundary_refusals_tell_what_was_met(
    raw: u64,
    owner: u64,
    id: u64,
    record: Record,
    size: usize,
    count: usize,
    kind: i32,
    len: usize,
    bytes: u64,
    n: u64,
    mode: i32,
)
    ensures
        (Reason::NotOpen { id }).text() == Some(
            "device handle "@ + decimal_text(id as nat)
                + " is not open (closed, never opened, or not a kit handle)"@,
        ),
        (Reason::DeviceClosed { id }).text() == Some(
            "device "@ + decimal_text(id as nat) + " is closed"@,
        ),
        (Reason::ForeignBuffer { raw, owner, id }).text() == Some(
            "buffer 0x"@ + hex_text(raw as nat) + " belongs to device "@
                + decimal_text(owner as nat) + ", not device "@ + decimal_text(id as nat),
        ),
        (Reason::DeadBuffer { raw, id }).text() == Some(
            "buffer 0x"@ + hex_text(raw as nat) + " is not live on device "@
                + decimal_text(id as nat) + " (freed, or never allocated)"@,
        ),
        (Reason::ShortRecord { record, size }).text() == Some(
            record.text() + " of "@ + decimal_text(size as nat)
                + " bytes is smaller than this library's "@
                + decimal_text(record.bytes() as nat),
        ),
        (Reason::LiveBuffers { count }).text() == Some(
            "close refused: "@ + decimal_text(count as nat)
                + " buffer(s) still allocated on this device"@,
        ),
        (Reason::FaultKind { kind }).text() == Some(
            "ack_inject_fault: kind "@ + signed_text(kind as int)
                + " is not 0 (wait) or 1 (idle)"@,
        ),
        Reason::ZeroBytes.text() == Some("zero-byte buffer"@),
        Reason::NoBufferHandle.text() == Some(
            "buffer handle space exhausted on this device; close and reopen"@,
        ),
        Reason::NoDeviceHandle.text() == Some("device handle space exhausted in this process"@),
        (Reason::UploadSize { len, bytes }).text() == Some(
            "upload of "@ + decimal_text(len as nat) + " bytes into a "@
                + decimal_text(bytes as nat) + "-byte buffer"@,
        ),
        (Reason::DownloadSize { len, bytes }).text() == Some(
            "download of "@ + decimal_text(len as nat) + " bytes from a "@
                + decimal_text(bytes as nat) + "-byte buffer"@,
        ),
        (Reason::Cast { n, mode }).text() == Some(
            "cast: bad n="@ + decimal_text(n as nat) + " or mode="@ + signed_text(mode as int),
        ),
        (Reason::CastSmall { n, mode }).text() == Some(
            "cast: buffers too small for n="@ + decimal_text(n as nat) + " mode="@
                + signed_text(mode as int),
        ),
        Reason::NoCast.text() == Some("cast: kernel absent on this device"@),
{
}

/// A refused product tells its shape, its strides and what its buffers hold, in
/// the order of its operands.
pub proof fn law_product_refusals_tell_the_shape(
    m: u32,
    n: u32,
    k: u32,
    z: u32,
    zmode: u32,
    lda: u32,
    ldb: u32,
    a_cols: u32,
    b_cols: u32,
    kz: u32,
    za: u32,
    zb: u32,
    zc: u32,
    room: Room,
)
    ensures
        (Reason::ZeroDimension { m, n, k }).text() == Some(
            "shape "@ + decimal_text(m as nat) + "x"@ + decimal_text(n as nat) + "x"@
                + decimal_text(k as nat)
                + " has a zero dimension: the dispatch grid would be empty"@,
        ),
        (Reason::GridZ { z }).text() == Some(
            "z "@ + decimal_text(z as nat) + " is outside 1..=65535"@,
        ),
        (Reason::ZMode { zmode }).text() == Some(
            "zmode "@ + decimal_text(zmode as nat) + " is not 0 (batch) or 1 (K-split)"@,
        ),
        (Reason::Pitch { lda, ldb, a_cols, b_cols }).text() == Some(
            "pitch "@ + decimal_text(lda as nat) + "/"@ + decimal_text(ldb as nat)
                + " below the stored width "@ + decimal_text(a_cols as nat) + "/"@
                + decimal_text(b_cols as nat),
        ),
        Reason::SplitStrides.text() == Some(
            "K-split mode takes no operand z strides (za and zb must be 0)"@,
        ),
        (Reason::SplitCover { z, kz, k }).text() == Some(
            decimal_text(z as nat) + " splits of "@ + decimal_text(kz as nat)
                + " do not cover k = "@ + decimal_text(k as nat),
        ),
        (Reason::PartialsOverlap { zc, m, n }).text() == Some(
            "partials "@ + decimal_text(zc as nat) + " elements apart overlap an "@
                + decimal_text(m as nat) + "x"@ + decimal_text(n as nat) + " product"@,
        ),
        (Reason::ZStrides { za, zb, zc, a_cols, b_cols, m, n }).text() == Some(
            "z strides "@ + decimal_text(za as nat) + "/"@ + decimal_text(zb as nat) + "/"@
                + decimal_text(zc as nat) + " below the row widths "@
                + decimal_text(a_cols as nat) + "/"@ + decimal_text(b_cols as nat) + " or the "@
                + decimal_text(m as nat) + "x"@ + decimal_text(n as nat) + " output block"@,
        ),
        Reason::SharedOutput.text() == Some("the output buffer must be distinct from both inputs"@),
        (Reason::SmallOperands { m, n, k, room }).text() == Some(
            "buffers too small for "@ + decimal_text(m as nat) + "x"@ + decimal_text(n as nat)
                + "x"@ + decimal_text(k as nat) + ": A "@ + decimal_text(room.a as nat)
                + " (need "@ + decimal_text(room.need_a as nat) + "), B "@
                + decimal_text(room.b as nat) + " (need "@ + decimal_text(room.need_b as nat)
                + "), C "@ + decimal_text(room.c as nat) + " (need "@
                + decimal_text(room.need_c as nat) + ")"@,
        ),
        (Reason::SmallBatch { z, m, n, k, zmode, room }).text() == Some(
            "buffers too small for "@ + decimal_text(z as nat) + " x "@ + decimal_text(m as nat)
                + "x"@ + decimal_text(n as nat) + "x"@ + decimal_text(k as nat) + " (zmode "@
                + decimal_text(zmode as nat) + "): A "@ + decimal_text(room.a as nat)
                + " (need "@ + decimal_text(room.need_a as nat) + "), B "@
                + decimal_text(room.b as nat) + " (need "@ + decimal_text(room.need_b as nat)
                + "), C "@ + decimal_text(room.c as nat) + " (need "@
                + decimal_text(room.need_c as nat) + ")"@,
        ),
        Reason::NoBf16.text() == Some(
            "BF16 cooperative-matrix matmul is not available on this device (no BF16 cooperative matrices or no subgroup size control); ack_matmul_f32 is"@,
        ),
{
}

/// A refused plan tells the lengths, the counts and the parts that were met, and
/// what they would have to be.
pub proof fn law_plan_refusals_tell_what_was_met(
    family: Family,
    part: Part,
    len: usize,
    wide: usize,
    have: u64,
    need: u64,
    splits: u32,
)
    ensures
        (Reason::BlockLength { family, len, need: wide }).text() == Some(
            family.text() + ": the plan block is "@ + decimal_text(len as nat) + " bytes, not "@
                + decimal_text(wide as nat),
        ),
        (Reason::ReduceLength { len }).text() == Some(
            "reduce: the plan block is "@ + decimal_text(len as nat) + " bytes, not 80 or 84"@,
        ),
        (Reason::VqLength { len }).text() == Some(
            "vq: plan has "@ + decimal_text(len as nat) + " bytes, expected 32"@,
        ),
        Reason::VqNull.text() == Some("vq: null plan"@),
        Reason::VqPoisoned.text() == Some("vq: device poisoned by an earlier ambiguous operation"@),
        Reason::MatmulShared.text() == Some(
            "matmul_f32: the output buffer must be distinct from both inputs"@,
        ),
        (Reason::ReduceOutput { have, need: wide }).text() == Some(
            "reduce: an output of "@ + decimal_text(have as nat) + " elements for "@
                + decimal_text(wide as nat) + ": plan refused: reduce-output-too-small"@,
        ),
        (Reason::NoPartials { splits }).text() == Some(
            "reduce: a two-pass plan ("@ + decimal_text(splits as nat)
                + " splits) needs a partials buffer"@,
        ),
        Reason::PartialsAlias.text() == Some("reduce: plan refused: reduce-partials-alias"@),
        (Reason::ReducePartials { have, need: wide }).text() == Some(
            "reduce: partials of "@ + decimal_text(have as nat) + " elements for "@
                + decimal_text(wide as nat) + ": plan refused: reduce-partials-too-small"@,
        ),
        Reason::ReduceV2Absent.text() == Some("reduce: v2 kernel absent on this device"@),
        (Reason::TooSmall { family, part, have, need }).text() == Some(
            family.text() + ": "@ + part.text() + " of "@ + decimal_text(have as nat)
                + " elements for "@ + decimal_text(need as nat) + ": plan refused: "@
                + family.text() + "-"@ + part.text() + "-too-small"@,
        ),
        (Reason::ImageMismatch { family, part, have, need }).text() == Some(
            family.text() + ": "@ + part.text() + " buffer of "@ + decimal_text(have as nat)
                + " bytes for an image of "@ + decimal_text(need as nat) + ": plan refused: "@
                + family.text() + "-"@ + part.text() + "-size-mismatch"@,
        ),
        (Reason::OutputAliases { family }).text() == Some(
            family.text() + ": plan refused: "@ + family.text() + "-output-aliases-input"@,
        ),
        (Reason::Absent { family }).text() == Some(family.text() + ": kernel absent on this device"@),
{
}

} // verus!
