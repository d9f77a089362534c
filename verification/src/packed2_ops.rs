//! Geometry, capacity and dispatch planning of the product with two-bit packed
//! weights.
//!
//! The weight operand arrives as two-bit codes, sixteen to a word, with one
//! FP32 scale per block of consecutive weights. Offsets and strides of packed
//! views are in weights; the codes buffer is declared in words and the scale
//! table in elements, the units that the buffers really have.

use crate::arith::{ceil_div, div_ceil, div_ceil_u64, lemma_ceil_div_covers};
use crate::words::{block as push_block, law_words_read_back, word_at, words_bytes};
use vstd::arithmetic::power2::{lemma2_to64, lemma_pow2_strictly_increases, lemma_pow2_unfold, pow2};
use vstd::prelude::*;

verus! {

pub const ABI: &'static str = "matmul-packed2/v1";

/// The control that reads plain weights.
pub const ABI_CONTROL: &'static str = "matmul-unpacked-ref/v1";

/// Weights per word of the codes array.
pub const WEIGHTS_PER_WORD: u32 = 16;

/// Bits per weight in the codes array.
pub const BITS_PER_WEIGHT: u32 = 2;

/// The code that decodes to zero rather than to a fourth level.
pub const RESERVED_CODE: u32 = 3;

pub const MAX_DIM: u32 = 65_536;

pub const MAX_K: u32 = 65_536;

/// Ceiling on the weights one operand view may address.
pub const MAX_ADDRESSED_ELEMENTS: u64 = 268_435_456;

pub const MAX_SCALES: u64 = 268_435_456;

pub const TILE: u32 = 8;

pub const WORKGROUP_INVOCATIONS: u32 = 64;

pub const ABI_V2: &'static str = "matmul-packed2/v2";

pub const ABI_CONTROL_V2: &'static str = "matmul-unpacked-ref/v2";

/// Columns one wide invocation owns: exactly one word of codes.
pub const COLS_PER_INVOCATION: u32 = 16;

pub const PUSH_BYTES: usize = 60;

/// The shift that tells the kernel to divide.
pub const BLOCK_SHIFT_DIVIDE: u32 = 32;

/// A values, B codes, B scales, C values.
pub const OPERANDS: usize = 4;

/// Which kernel a plan is for; the two differ in the grid.
#[derive(Clone, Copy, Debug, PartialEq, Eq, Structural)]
pub enum Packed2Kind {
    /// One output element per invocation.
    Scalar,
    /// Sixteen output columns per invocation; needs a word-aligned B with unit
    /// column stride.
    Wide16,
}

#[derive(Clone, Copy, Debug, PartialEq, Eq, Structural)]
pub enum Packed2PlanError {
    DimensionOutOfRange,
    DimensionMismatch,
    ZeroStride,
    ZeroBlock,
    AddressOverflow,
    AddressLimitExceeded,
    CapacityTooSmall,
    CodesCapacityTooSmall,
    ScaleTableTooShort,
    OutputOverlap,
    ColumnStrideNotOne,
    OffsetNotWordAligned,
    RowStrideNotWordAligned,
    BlockNotWordAligned,
}

impl Packed2PlanError {
    pub open spec fn text(self) -> Seq<char> {
        match self {
            Packed2PlanError::DimensionOutOfRange => "packed2-dimension-out-of-range"@,
            Packed2PlanError::DimensionMismatch => "packed2-dimension-mismatch"@,
            Packed2PlanError::ZeroStride => "packed2-zero-stride"@,
            Packed2PlanError::ZeroBlock => "packed2-zero-block"@,
            Packed2PlanError::AddressOverflow => "packed2-address-overflow"@,
            Packed2PlanError::AddressLimitExceeded => "packed2-address-limit-exceeded"@,
            Packed2PlanError::CapacityTooSmall => "packed2-capacity-too-small"@,
            Packed2PlanError::CodesCapacityTooSmall => "packed2-codes-capacity-too-small"@,
            Packed2PlanError::ScaleTableTooShort => "packed2-scale-table-too-short"@,
            Packed2PlanError::OutputOverlap => "packed2-output-overlap"@,
            Packed2PlanError::ColumnStrideNotOne => "packed2-v2-column-stride-not-one"@,
            Packed2PlanError::OffsetNotWordAligned => "packed2-v2-offset-not-word-aligned"@,
            Packed2PlanError::RowStrideNotWordAligned => "packed2-v2-row-stride-not-word-aligned"@,
            Packed2PlanError::BlockNotWordAligned => "packed2-v2-block-not-word-aligned"@,
        }
    }

    /// The refusal's stable name.
    pub fn name(&self) -> (r: &'static str)
        ensures
            r@ == self.text(),
    {
        match self {
            Packed2PlanError::DimensionOutOfRange => "packed2-dimension-out-of-range",
            Packed2PlanError::DimensionMismatch => "packed2-dimension-mismatch",
            Packed2PlanError::ZeroStride => "packed2-zero-stride",
            Packed2PlanError::ZeroBlock => "packed2-zero-block",
            Packed2PlanError::AddressOverflow => "packed2-address-overflow",
            Packed2PlanError::AddressLimitExceeded => "packed2-address-limit-exceeded",
            Packed2PlanError::CapacityTooSmall => "packed2-capacity-too-small",
            Packed2PlanError::CodesCapacityTooSmall => "packed2-codes-capacity-too-small",
            Packed2PlanError::ScaleTableTooShort => "packed2-scale-table-too-short",
            Packed2PlanError::OutputOverlap => "packed2-output-overlap",
            Packed2PlanError::ColumnStrideNotOne => "packed2-v2-column-stride-not-one",
            Packed2PlanError::OffsetNotWordAligned => "packed2-v2-offset-not-word-aligned",
            Packed2PlanError::RowStrideNotWordAligned => "packed2-v2-row-stride-not-word-aligned",
            Packed2PlanError::BlockNotWordAligned => "packed2-v2-block-not-word-aligned",
        }
    }
}

/// Words that hold `weights` codes.
pub open spec fn word_count(weights: int) -> int {
    ceil_div(weights, 16)
}

/// Scales that cover `weights` at a block size.
pub open spec fn scale_count(weights: int, block: int) -> int {
    if block == 0 {
        0
    } else {
        ceil_div(weights, block)
    }
}

/// How many words hold `weights` codes.
pub fn words_for(weights: u64) -> (r: u64)
    ensures
        r == word_count(weights as int),
        r <= weights,
{
    div_ceil_u64(weights, WEIGHTS_PER_WORD as u64)
}

/// How many scales cover `weights` at this block size.
pub fn scales_for(weights: u64, block: u32) -> (r: u64)
    ensures
        r == scale_count(weights as int, block as int),
{
    if block == 0 {
        return 0;
    }
    div_ceil_u64(weights, block as u64)
}

/// Bytes of the packed form of `weights`: codes and scales.
pub open spec fn packed_size(weights: int, block: int) -> int {
    word_count(weights) * 4 + scale_count(weights, block) * 4
}

/// Bytes the packed form of `weights` occupies, scales included.
pub fn packed_bytes(weights: u64, block: u32) -> (r: u64)
    requires
        packed_size(weights as int, block as int) <= u64::MAX,
    ensures
        r == packed_size(weights as int, block as int),
{
    proof {
        lemma_ceil_div_covers(weights as int, 16);
        if block > 0 {
            lemma_ceil_div_covers(weights as int, block as int);
        }
    }
    words_for(weights) * 4 + scales_for(weights, block) * 4
}

/// A logical `[rows, cols]` view: extents, offset and strides.
pub ghost struct Extent {
    pub rows: int,
    pub cols: int,
    pub offset: int,
    pub row_stride: int,
    pub col_stride: int,
}

impl Extent {
    pub open spec fn address(self, i: int, j: int) -> int {
        self.offset + i * self.row_stride + j * self.col_stride
    }

    /// One past the highest address.
    pub open spec fn required(self) -> int {
        self.address(self.rows - 1, self.cols - 1) + 1
    }

    /// Why the extents are refused, if they are.
    pub open spec fn refusal(self) -> Option<Packed2PlanError> {
        if !(1 <= self.rows <= MAX_DIM && 1 <= self.cols <= MAX_DIM) {
            Some(Packed2PlanError::DimensionOutOfRange)
        } else if self.row_stride == 0 || self.col_stride == 0 {
            Some(Packed2PlanError::ZeroStride)
        } else if self.rows * self.cols > MAX_ADDRESSED_ELEMENTS {
            Some(Packed2PlanError::AddressLimitExceeded)
        } else if self.required() > u64::MAX {
            Some(Packed2PlanError::AddressOverflow)
        } else if self.required() > MAX_ADDRESSED_ELEMENTS {
            Some(Packed2PlanError::AddressLimitExceeded)
        } else if self.row_stride > u32::MAX || self.col_stride > u32::MAX {
            Some(Packed2PlanError::AddressLimitExceeded)
        } else {
            None
        }
    }

    pub open spec fn valid(self) -> bool {
        &&& self.offset >= 0
        &&& self.row_stride >= 0
        &&& self.col_stride >= 0
        &&& self.refusal() is None
    }

    pub open spec fn dense_output(self) -> bool {
        (self.col_stride == 1 && self.row_stride >= self.cols) || (self.row_stride == 1
            && self.col_stride >= self.rows)
    }

    pub open spec fn push_words(self) -> Seq<u32> {
        seq![self.offset as u32, self.row_stride as u32, self.col_stride as u32]
    }
}

/// Every element of an admitted view lies below the required count.
pub proof fn law_extent_stays_inside(x: Extent, i: int, j: int)
    requires
        x.valid(),
        0 <= i < x.rows,
        0 <= j < x.cols,
    ensures
        0 <= x.address(i, j) < x.required(),
{
    assert(0 <= i * x.row_stride <= (x.rows - 1) * x.row_stride) by (nonlinear_arith)
        requires
            0 <= i <= x.rows - 1,
            x.row_stride >= 0,
    ;
    assert(0 <= j * x.col_stride <= (x.cols - 1) * x.col_stride) by (nonlinear_arith)
        requires
            0 <= j <= x.cols - 1,
            x.col_stride >= 0,
    ;
}

proof fn lemma_two_digits(base: int, hi1: int, lo1: int, hi2: int, lo2: int)
    requires
        0 <= lo1 < base,
        0 <= lo2 < base,
        hi1 * base + lo1 == hi2 * base + lo2,
    ensures
        hi1 == hi2,
        lo1 == lo2,
{
    assert((hi1 - hi2) * base == lo2 - lo1) by (nonlinear_arith)
        requires
            hi1 * base + lo1 == hi2 * base + lo2,
    ;
    assert(hi1 == hi2) by (nonlinear_arith)
        requires
            (hi1 - hi2) * base == lo2 - lo1,
            -base < lo2 - lo1 < base,
    ;
}

/// Distinct elements of an admitted output have distinct addresses.
pub proof fn law_output_elements_do_not_overlap(x: Extent, i1: int, j1: int, i2: int, j2: int)
    requires
        x.dense_output(),
        0 <= i1 < x.rows,
        0 <= j1 < x.cols,
        0 <= i2 < x.rows,
        0 <= j2 < x.cols,
        x.address(i1, j1) == x.address(i2, j2),
    ensures
        i1 == i2 && j1 == j2,
{
    if x.col_stride == 1 && x.row_stride >= x.cols {
        assert(j1 * x.col_stride == j1 && j2 * x.col_stride == j2) by (nonlinear_arith)
            requires
                x.col_stride == 1,
        ;
        lemma_two_digits(x.row_stride, i1, j1, i2, j2);
    } else {
        assert(i1 * x.row_stride == i1 && i2 * x.row_stride == i2) by (nonlinear_arith)
            requires
                x.row_stride == 1,
        ;
        lemma_two_digits(x.col_stride, j1, i1, j2, i2);
    }
}

/// The extents of a request.
pub open spec fn extent_of(
    rows: u32,
    cols: u32,
    offset: u64,
    row_stride: u64,
    col_stride: u64,
) -> Extent {
    Extent {
        rows: rows as int,
        cols: cols as int,
        offset: offset as int,
        row_stride: row_stride as int,
        col_stride: col_stride as int,
    }
}

/// Extent and address checks shared by both view types; the required element
/// count where they pass.
fn span(rows: u32, cols: u32, offset: u64, row_stride: u64, col_stride: u64) -> (r: Result<
    u64,
    Packed2PlanError,
>)
    ensures
        ({
            let x = extent_of(rows, cols, offset, row_stride, col_stride);
            match x.refusal() {
                Some(e) => r == Err::<u64, Packed2PlanError>(e),
                None => r is Ok && r->Ok_0 == x.required(),
            }
        }),
{
    if rows == 0 || rows > MAX_DIM || cols == 0 || cols > MAX_DIM {
        return Err(Packed2PlanError::DimensionOutOfRange);
    }
    if row_stride == 0 || col_stride == 0 {
        return Err(Packed2PlanError::ZeroStride);
    }
    proof {
        assert(0 <= rows * cols <= 65536 * 65536) by (nonlinear_arith)
            requires
                0 <= rows <= 65536,
                0 <= cols <= 65536,
        ;
        assert(0 <= (rows - 1) * row_stride) by (nonlinear_arith)
            requires
                rows >= 1,
                row_stride >= 0,
        ;
        assert(0 <= (cols - 1) * col_stride) by (nonlinear_arith)
            requires
                cols >= 1,
                col_stride >= 0,
        ;
    }
    let logical: u64 = (rows as u64) * (cols as u64);
    if logical > MAX_ADDRESSED_ELEMENTS {
        return Err(Packed2PlanError::AddressLimitExceeded);
    }
    let row_term: u64 = match ((rows - 1) as u64).checked_mul(row_stride) {
        Some(t) => t,
        None => return Err(Packed2PlanError::AddressOverflow),
    };
    let col_term: u64 = match ((cols - 1) as u64).checked_mul(col_stride) {
        Some(t) => t,
        None => return Err(Packed2PlanError::AddressOverflow),
    };
    let with_rows: u64 = match offset.checked_add(row_term) {
        Some(t) => t,
        None => return Err(Packed2PlanError::AddressOverflow),
    };
    let with_cols: u64 = match with_rows.checked_add(col_term) {
        Some(t) => t,
        None => return Err(Packed2PlanError::AddressOverflow),
    };
    let required: u64 = match with_cols.checked_add(1) {
        Some(t) => t,
        None => return Err(Packed2PlanError::AddressOverflow),
    };
    if required > MAX_ADDRESSED_ELEMENTS {
        return Err(Packed2PlanError::AddressLimitExceeded);
    }
    if row_stride > u32::MAX as u64 || col_stride > u32::MAX as u64 {
        return Err(Packed2PlanError::AddressLimitExceeded);
    }
    Ok(required)
}

/// What a `FloatView` describes.
pub ghost struct FloatModel {
    pub extent: Extent,
    pub capacity: int,
}

impl FloatModel {
    pub open spec fn refusal(self) -> Option<Packed2PlanError> {
        match self.extent.refusal() {
            Some(e) => Some(e),
            None => if self.capacity < self.extent.required() {
                Some(Packed2PlanError::CapacityTooSmall)
            } else {
                None
            },
        }
    }

    pub open spec fn valid(self) -> bool {
        self.extent.valid() && self.refusal() is None
    }
}

/// An immutable logical `[rows, cols]` FP32 view into one storage.
#[derive(Clone, Copy, Debug, PartialEq, Eq, Structural)]
pub struct FloatView {
    rows: u32,
    cols: u32,
    offset: u32,
    row_stride: u32,
    col_stride: u32,
    capacity_elements: u64,
    required_elements: u64,
}

impl View for FloatView {
    type V = FloatModel;

    closed spec fn view(&self) -> FloatModel {
        FloatModel {
            extent: Extent {
                rows: self.rows as int,
                cols: self.cols as int,
                offset: self.offset as int,
                row_stride: self.row_stride as int,
                col_stride: self.col_stride as int,
            },
            capacity: self.capacity_elements as int,
        }
    }
}

impl FloatView {
    #[verifier::type_invariant]
    spec fn admitted(self) -> bool {
        self@.valid() && self.required_elements == self@.extent.required()
    }

    pub fn new(
        rows: u32,
        cols: u32,
        offset: u64,
        row_stride: u64,
        col_stride: u64,
        capacity_elements: u64,
    ) -> (r: Result<Self, Packed2PlanError>)
        ensures
            ({
                let asked = FloatModel {
                    extent: extent_of(rows, cols, offset, row_stride, col_stride),
                    capacity: capacity_elements as int,
                };
                match asked.refusal() {
                    Some(e) => r == Err::<Self, Packed2PlanError>(e),
                    None => r is Ok && r->Ok_0@ == asked,
                }
            }),
    {
        let required_elements: u64 = match span(rows, cols, offset, row_stride, col_stride) {
            Ok(n) => n,
            Err(e) => return Err(e),
        };
        if capacity_elements < required_elements {
            return Err(Packed2PlanError::CapacityTooSmall);
        }
        proof {
            let x = extent_of(rows, cols, offset, row_stride, col_stride);
            law_extent_stays_inside(x, 0, 0);
            assert(x.address(0, 0) == offset);
        }
        Ok(
            FloatView {
                rows,
                cols,
                offset: offset as u32,
                row_stride: row_stride as u32,
                col_stride: col_stride as u32,
                capacity_elements,
                required_elements,
            },
        )
    }

    /// A compact row-major view.
    pub fn contiguous(rows: u32, cols: u32, offset: u64, capacity_elements: u64) -> (r: Result<
        Self,
        Packed2PlanError,
    >)
        ensures
            ({
                let asked = FloatModel {
                    extent: extent_of(rows, cols, offset, cols as u64, 1),
                    capacity: capacity_elements as int,
                };
                match asked.refusal() {
                    Some(e) => r == Err::<Self, Packed2PlanError>(e),
                    None => r is Ok && r->Ok_0@ == asked,
                }
            }),
    {
        FloatView::new(rows, cols, offset, cols as u64, 1, capacity_elements)
    }

    pub fn rows(&self) -> (r: u32)
        ensures
            r == self@.extent.rows,
    {
        self.rows
    }

    pub fn cols(&self) -> (r: u32)
        ensures
            r == self@.extent.cols,
    {
        self.cols
    }

    pub fn offset(&self) -> (r: u32)
        ensures
            r == self@.extent.offset,
    {
        self.offset
    }

    pub fn row_stride(&self) -> (r: u32)
        ensures
            r == self@.extent.row_stride,
    {
        self.row_stride
    }

    pub fn col_stride(&self) -> (r: u32)
        ensures
            r == self@.extent.col_stride,
    {
        self.col_stride
    }

    pub fn capacity_elements(&self) -> (r: u64)
        ensures
            r == self@.capacity,
    {
        self.capacity_elements
    }

    pub fn required_elements(&self) -> (r: u64)
        ensures
            r == self@.extent.required(),
    {
        proof {
            use_type_invariant(self);
        }
        self.required_elements
    }

    fn is_non_overlapping_output(&self) -> (r: bool)
        ensures
            r == self@.extent.dense_output(),
    {
        (self.col_stride == 1 && self.row_stride >= self.cols) || (self.row_stride == 1
            && self.col_stride >= self.rows)
    }
}

/// What a `PackedView` describes.
pub ghost struct PackedModel {
    pub extent: Extent,
    pub block: int,
    pub n_scales: int,
    pub codes_capacity: int,
    pub scales_capacity: int,
}

/// `shift` replaces the division by `block`, or says that nothing does.
pub open spec fn is_block_shift(shift: u32, block: int) -> bool {
    if exists|s: nat| s < 32 && #[trigger] pow2(s) == block {
        shift < 32 && pow2(shift as nat) == block
    } else {
        shift == BLOCK_SHIFT_DIVIDE
    }
}

impl PackedModel {
    pub open spec fn refusal(self) -> Option<Packed2PlanError> {
        if self.block == 0 {
            Some(Packed2PlanError::ZeroBlock)
        } else if self.extent.refusal() is Some {
            self.extent.refusal()
        } else if self.codes_capacity < word_count(self.extent.required()) {
            Some(Packed2PlanError::CodesCapacityTooSmall)
        } else if self.n_scales > MAX_SCALES {
            Some(Packed2PlanError::AddressLimitExceeded)
        } else if self.n_scales < scale_count(self.extent.required(), self.block) {
            Some(Packed2PlanError::ScaleTableTooShort)
        } else if self.scales_capacity < self.n_scales {
            Some(Packed2PlanError::CapacityTooSmall)
        } else {
            None
        }
    }

    pub open spec fn valid(self) -> bool {
        &&& self.extent.valid()
        &&& self.block >= 0
        &&& self.n_scales >= 0
        &&& self.refusal() is None
    }

    /// Bytes of the operand in its packed form.
    pub open spec fn packed_size(self) -> int {
        word_count(self.extent.required()) * 4 + self.n_scales * 4
    }
}

/// Every weight of an admitted view has its code inside the codes buffer and
/// its scale inside the scale table.
pub proof fn law_every_weight_has_its_code_and_scale(v: PackedModel, i: int, j: int)
    requires
        v.valid(),
        0 <= i < v.extent.rows,
        0 <= j < v.extent.cols,
    ensures
        0 <= v.extent.address(i, j) / 16 < v.codes_capacity,
        0 <= v.extent.address(i, j) / v.block < v.n_scales <= v.scales_capacity,
{
    let w = v.extent.address(i, j);
    let n = v.extent.required();
    law_extent_stays_inside(v.extent, i, j);
    lemma_ceil_div_covers(n, 16);
    lemma_ceil_div_covers(n, v.block);
    let s = scale_count(n, v.block);
    vstd::arithmetic::div_mod::lemma_div_pos_is_pos(w, v.block);
    assert(w / v.block < s) by {
        vstd::arithmetic::div_mod::lemma_fundamental_div_mod(w, v.block);
        let q = w / v.block;
        let r = w % v.block;
        vstd::arithmetic::div_mod::lemma_mod_bound(w, v.block);
        assert(q < s) by (nonlinear_arith)
            requires
                w == v.block * q + r,
                r >= 0,
                w < n,
                s * v.block >= n,
                v.block > 0,
        ;
    }
}

/// At most one shift stands for a block size.
pub proof fn law_block_shift_is_unique(a: u32, b: u32, block: int)
    requires
        is_block_shift(a, block),
        is_block_shift(b, block),
    ensures
        a == b,
{
    if a < 32 && b < 32 {
        if a < b {
            lemma_pow2_strictly_increases(a as nat, b as nat);
        }
        if b < a {
            lemma_pow2_strictly_increases(b as nat, a as nat);
        }
    }
}

fn shift_of(block: u32) -> (shift: u32)
    requires
        block > 0,
    ensures
        is_block_shift(shift, block as int),
{
    let mut power: u64 = 1;
    let mut s: u32 = 0;
    proof {
        lemma2_to64();
    }
    while power < block as u64
        invariant
            s <= 32,
            power == pow2(s as nat),
            1 <= power <= 0x1_0000_0000,
            power < 0x1_0000_0000 ==> s < 32,
            forall|t: nat| t < s ==> #[trigger] pow2(t) < block,
        decreases 0x1_0000_0000 - power,
    {
        proof {
            lemma_pow2_unfold((s + 1) as nat);
            lemma2_to64();
            if s == 31 {
                assert(power == 0x8000_0000);
            } else {
                assert(s + 1 < 32);
                lemma_pow2_strictly_increases((s + 1) as nat, 32);
            }
        }
        power = power * 2;
        s += 1;
    }
    if power == block as u64 {
        proof {
            lemma2_to64();
            assert(s < 32);
            assert(pow2(s as nat) == block);
        }
        s
    } else {
        proof {
            assert forall|t: nat| t < 32 implies #[trigger] pow2(t) != block by {
                if t > s {
                    lemma_pow2_strictly_increases(s as nat, t);
                }
            }
        }
        BLOCK_SHIFT_DIVIDE
    }
}

/// An immutable logical `[rows, cols]` view of packed weights.
#[derive(Clone, Copy, Debug, PartialEq, Eq, Structural)]
pub struct PackedView {
    rows: u32,
    cols: u32,
    offset: u32,
    row_stride: u32,
    col_stride: u32,
    block: u32,
    n_scales: u32,
    block_shift: u32,
    codes_capacity_words: u64,
    scales_capacity_elements: u64,
    required_weights: u64,
}

impl View for PackedView {
    type V = PackedModel;

    closed spec fn view(&self) -> PackedModel {
        PackedModel {
            extent: Extent {
                rows: self.rows as int,
                cols: self.cols as int,
                offset: self.offset as int,
                row_stride: self.row_stride as int,
                col_stride: self.col_stride as int,
            },
            block: self.block as int,
            n_scales: self.n_scales as int,
            codes_capacity: self.codes_capacity_words as int,
            scales_capacity: self.scales_capacity_elements as int,
        }
    }
}

impl PackedView {
    #[verifier::type_invariant]
    spec fn admitted(self) -> bool {
        &&& self@.valid()
        &&& self.required_weights == self@.extent.required()
        &&& is_block_shift(self.block_shift, self.block as int) || self.block_shift
            == BLOCK_SHIFT_DIVIDE
    }

    /// The shift the view's push word carries.
    pub closed spec fn shift(&self) -> u32 {
        self.block_shift
    }

    pub fn new(
        rows: u32,
        cols: u32,
        offset: u64,
        row_stride: u64,
        col_stride: u64,
        block: u32,
        n_scales: u64,
        codes_capacity_words: u64,
        scales_capacity_elements: u64,
    ) -> (r: Result<Self, Packed2PlanError>)
        ensures
            ({
                let asked = PackedModel {
                    extent: extent_of(rows, cols, offset, row_stride, col_stride),
                    block: block as int,
                    n_scales: n_scales as int,
                    codes_capacity: codes_capacity_words as int,
                    scales_capacity: scales_capacity_elements as int,
                };
                match asked.refusal() {
                    Some(e) => r == Err::<Self, Packed2PlanError>(e),
                    None => r is Ok && r->Ok_0@ == asked && is_block_shift(
                        r->Ok_0.shift(),
                        block as int,
                    ),
                }
            }),
    {
        if block == 0 {
            return Err(Packed2PlanError::ZeroBlock);
        }
        let required_weights: u64 = match span(rows, cols, offset, row_stride, col_stride) {
            Ok(n) => n,
            Err(e) => return Err(e),
        };
        if codes_capacity_words < words_for(required_weights) {
            return Err(Packed2PlanError::CodesCapacityTooSmall);
        }
        if n_scales > MAX_SCALES {
            return Err(Packed2PlanError::AddressLimitExceeded);
        }
        if n_scales < scales_for(required_weights, block) {
            return Err(Packed2PlanError::ScaleTableTooShort);
        }
        if scales_capacity_elements < n_scales {
            return Err(Packed2PlanError::CapacityTooSmall);
        }
        proof {
            let x = extent_of(rows, cols, offset, row_stride, col_stride);
            law_extent_stays_inside(x, 0, 0);
            assert(x.address(0, 0) == offset);
        }
        Ok(
            PackedView {
                rows,
                cols,
                offset: offset as u32,
                row_stride: row_stride as u32,
                col_stride: col_stride as u32,
                block,
                n_scales: n_scales as u32,
                block_shift: shift_of(block),
                codes_capacity_words,
                scales_capacity_elements,
                required_weights,
            },
        )
    }

    /// A compact row-major packed view over exactly `rows * cols` weights, with
    /// the scale table that covers them.
    pub fn contiguous(
        rows: u32,
        cols: u32,
        block: u32,
        codes_capacity_words: u64,
        scales_capacity_elements: u64,
    ) -> (r: Result<Self, Packed2PlanError>)
        ensures
            ({
                let asked = PackedModel {
                    extent: extent_of(rows, cols, 0, cols as u64, 1),
                    block: block as int,
                    n_scales: scale_count(rows * cols, block as int),
                    codes_capacity: codes_capacity_words as int,
                    scales_capacity: scales_capacity_elements as int,
                };
                match asked.refusal() {
                    Some(e) => r == Err::<Self, Packed2PlanError>(e),
                    None => r is Ok && r->Ok_0@ == asked && is_block_shift(
                        r->Ok_0.shift(),
                        block as int,
                    ),
                }
            }),
    {
        proof {
            assert(0 <= rows * cols <= 0xffff_ffff * 0xffff_ffff) by (nonlinear_arith)
                requires
                    0 <= rows <= 0xffff_ffff,
                    0 <= cols <= 0xffff_ffff,
            ;
        }
        let weights: u64 = (rows as u64) * (cols as u64);
        PackedView::new(
            rows,
            cols,
            0,
            cols as u64,
            1,
            block,
            scales_for(weights, block),
            codes_capacity_words,
            scales_capacity_elements,
        )
    }

    pub fn rows(&self) -> (r: u32)
        ensures
            r == self@.extent.rows,
    {
        self.rows
    }

    pub fn cols(&self) -> (r: u32)
        ensures
            r == self@.extent.cols,
    {
        self.cols
    }

    pub fn offset(&self) -> (r: u32)
        ensures
            r == self@.extent.offset,
    {
        self.offset
    }

    pub fn row_stride(&self) -> (r: u32)
        ensures
            r == self@.extent.row_stride,
    {
        self.row_stride
    }

    pub fn col_stride(&self) -> (r: u32)
        ensures
            r == self@.extent.col_stride,
    {
        self.col_stride
    }

    pub fn block(&self) -> (r: u32)
        ensures
            r == self@.block,
    {
        self.block
    }

    pub fn n_scales(&self) -> (r: u32)
        ensures
            r == self@.n_scales,
    {
        self.n_scales
    }

    pub fn block_shift(&self) -> (r: u32)
        ensures
            r == self.shift(),
    {
        self.block_shift
    }

    /// The same view with the kernel's divide path selected.
    pub fn with_divide_path(self) -> (r: Self)
        ensures
            r@ == self@,
            r.shift() == BLOCK_SHIFT_DIVIDE,
    {
        proof {
            use_type_invariant(&self);
        }
        PackedView {
            rows: self.rows,
            cols: self.cols,
            offset: self.offset,
            row_stride: self.row_stride,
            col_stride: self.col_stride,
            block: self.block,
            n_scales: self.n_scales,
            block_shift: BLOCK_SHIFT_DIVIDE,
            codes_capacity_words: self.codes_capacity_words,
            scales_capacity_elements: self.scales_capacity_elements,
            required_weights: self.required_weights,
        }
    }

    pub fn codes_capacity_words(&self) -> (r: u64)
        ensures
            r == self@.codes_capacity,
    {
        self.codes_capacity_words
    }

    pub fn scales_capacity_elements(&self) -> (r: u64)
        ensures
            r == self@.scales_capacity,
    {
        self.scales_capacity_elements
    }

    pub fn required_weights(&self) -> (r: u64)
        ensures
            r == self@.extent.required(),
    {
        proof {
            use_type_invariant(self);
        }
        self.required_weights
    }

    /// Bytes this view's operand occupies in its packed form.
    pub fn packed_bytes(&self) -> (r: u64)
        ensures
            r == self@.packed_size(),
    {
        proof {
            use_type_invariant(self);
        }
        words_for(self.required_weights) * 4 + (self.n_scales as u64) * 4
    }

    /// What the same weights would occupy as FP32.
    pub fn fp32_bytes(&self) -> (r: u64)
        ensures
            r == self@.extent.required() * 4,
    {
        proof {
            use_type_invariant(self);
        }
        self.required_weights * 4
    }
}

/// What a `Packed2Plan` holds.
pub ghost struct Packed2Model {
    pub kind: Packed2Kind,
    pub a: FloatModel,
    pub b: PackedModel,
    pub output: FloatModel,
}

impl Packed2Model {
    /// Why the views make no product, if they make none.
    pub open spec fn refusal(self) -> Option<Packed2PlanError> {
        let b = self.b.extent;
        if self.kind is Wide16 && b.col_stride != 1 {
            Some(Packed2PlanError::ColumnStrideNotOne)
        } else if self.kind is Wide16 && b.offset % 16 != 0 {
            Some(Packed2PlanError::OffsetNotWordAligned)
        } else if self.kind is Wide16 && b.rows > 1 && b.row_stride % 16 != 0 {
            Some(Packed2PlanError::RowStrideNotWordAligned)
        } else if self.kind is Wide16 && self.b.block % 16 != 0 {
            Some(Packed2PlanError::BlockNotWordAligned)
        } else if self.a.extent.cols != b.rows || self.output.extent.rows != self.a.extent.rows
            || self.output.extent.cols != b.cols {
            Some(Packed2PlanError::DimensionMismatch)
        } else if self.a.extent.cols > MAX_K {
            Some(Packed2PlanError::DimensionOutOfRange)
        } else if !self.output.extent.dense_output() {
            Some(Packed2PlanError::OutputOverlap)
        } else {
            None
        }
    }

    pub open spec fn valid(self) -> bool {
        self.a.valid() && self.b.valid() && self.output.valid() && self.refusal() is None
    }

    /// The fifteen words of the push block.
    pub open spec fn push_words(self, shift: u32) -> Seq<u32> {
        seq![
            self.a.extent.rows as u32,
            self.b.extent.cols as u32,
            self.a.extent.cols as u32,
        ] + self.a.extent.push_words() + self.b.extent.push_words()
            + self.output.extent.push_words() + seq![
            self.b.block as u32,
            self.b.n_scales as u32,
            shift,
        ]
    }

    /// Columns a workgroup covers.
    pub open spec fn group_cols(self) -> int {
        match self.kind {
            Packed2Kind::Scalar => 8,
            Packed2Kind::Wide16 => 128,
        }
    }

    pub open spec fn groups(self) -> Seq<u32> {
        seq![
            ceil_div(self.b.extent.cols, self.group_cols()) as u32,
            ceil_div(self.a.extent.rows, TILE as int) as u32,
            1u32,
        ]
    }
}

/// The grid covers every output element.
pub proof fn law_grid_covers_the_output(p: Packed2Model)
    requires
        p.valid(),
    ensures
        p.groups()[0] * p.group_cols() >= p.output.extent.cols,
        (p.groups()[0] - 1) * p.group_cols() < p.output.extent.cols,
        p.groups()[1] * TILE >= p.output.extent.rows,
        (p.groups()[1] - 1) * TILE < p.output.extent.rows,
{
    lemma_ceil_div_covers(p.b.extent.cols, p.group_cols());
    lemma_ceil_div_covers(p.a.extent.rows, TILE as int);
}

/// In a wide plan each row's groups of sixteen columns begin on a word, and the
/// sixteen weights of a word share one scale.
pub proof fn law_wide_groups_are_whole_words(p: Packed2Model, i: int, g: int, c: int)
    requires
        p.valid(),
        p.kind is Wide16,
        0 <= i < p.b.extent.rows,
        0 <= g,
        0 <= c < 16,
    ensures
        p.b.extent.address(i, 16 * g) % 16 == 0,
        p.b.extent.address(i, 16 * g + c) / 16 == p.b.extent.address(i, 16 * g) / 16,
        p.b.extent.address(i, 16 * g + c) / p.b.block == p.b.extent.address(i, 16 * g) / p.b.block,
{
    let x = p.b.extent;
    let block = p.b.block;
    let w = x.address(i, 16 * g);
    assert((16 * g) * x.col_stride == 16 * g && (16 * g + c) * x.col_stride == 16 * g + c)
        by (nonlinear_arith)
        requires
            x.col_stride == 1,
    ;
    assert((i * x.row_stride) % 16 == 0) by {
        if x.rows > 1 {
            let t = x.row_stride / 16;
            assert(i * x.row_stride == 16 * (i * t)) by (nonlinear_arith)
                requires
                    x.row_stride == 16 * t,
            ;
        } else {
            assert(i * x.row_stride == 0) by (nonlinear_arith)
                requires
                    i == 0,
            ;
        }
    }
    assert(w % 16 == 0);
    assert(0 <= i * x.row_stride) by (nonlinear_arith)
        requires
            i >= 0,
            x.row_stride >= 0,
    ;
    assert(w >= 0);
    assert((w + c) / block == w / block) by {
        vstd::arithmetic::div_mod::lemma_fundamental_div_mod(w, block);
        vstd::arithmetic::div_mod::lemma_mod_bound(w, block);
        let q = w / block;
        let r = w % block;
        let t = block / 16;
        assert(r % 16 == 0) by {
            assert(w == 16 * (t * q) + r) by (nonlinear_arith)
                requires
                    w == block * q + r,
                    block == 16 * t,
            ;
        }
        assert(r + c < block);
        assert(w + c == q * block + (r + c)) by (nonlinear_arith)
            requires
                w == block * q + r,
        ;
        vstd::arithmetic::div_mod::lemma_fundamental_div_mod_converse(w + c, block, q, r + c);
    }
}

/// A control buffer of the plan's reach, rounded up to whole groups of sixteen,
/// holds every lane of every group that has a live column.
pub proof fn law_control_covers_every_lane(p: Packed2Model, i: int, g: int, c: int)
    requires
        p.valid(),
        p.kind is Wide16,
        0 <= i < p.b.extent.rows,
        0 <= g,
        16 * g < p.b.extent.cols,
        0 <= c < 16,
    ensures
        0 <= p.b.extent.address(i, 16 * g + c) < ceil_div(p.b.extent.required(), 16) * 16,
{
    let x = p.b.extent;
    law_extent_stays_inside(x, i, 16 * g);
    law_wide_groups_are_whole_words(p, i, g, c);
    lemma_ceil_div_covers(x.required(), 16);
    assert((16 * g) * x.col_stride == 16 * g && (16 * g + c) * x.col_stride == 16 * g + c)
        by (nonlinear_arith)
        requires
            x.col_stride == 1,
    ;
}

/// Geometry and dispatch metadata for one packed product.
#[derive(Clone, Copy, Debug, PartialEq, Eq)]
pub struct Packed2Plan {
    kind: Packed2Kind,
    a: FloatView,
    b: PackedView,
    output: FloatView,
    dispatch_groups: [u32; 3],
}

impl View for Packed2Plan {
    type V = Packed2Model;

    closed spec fn view(&self) -> Packed2Model {
        Packed2Model { kind: self.kind, a: self.a@, b: self.b@, output: self.output@ }
    }
}

impl Packed2Plan {
    #[verifier::type_invariant]
    spec fn admitted(self) -> bool {
        self@.valid() && self.dispatch_groups@ == self@.groups()
    }

    /// The shift the plan's push word carries.
    pub closed spec fn shift(&self) -> u32 {
        self.b.shift()
    }

    pub fn new(a: FloatView, b: PackedView, output: FloatView) -> (r: Result<
        Self,
        Packed2PlanError,
    >)
        ensures
            ({
                let asked = Packed2Model { kind: Packed2Kind::Scalar, a: a@, b: b@, output: output@ };
                match asked.refusal() {
                    Some(e) => r == Err::<Self, Packed2PlanError>(e),
                    None => r is Ok && r->Ok_0@ == asked && r->Ok_0.shift() == b.shift(),
                }
            }),
    {
        Packed2Plan::with_kind(Packed2Kind::Scalar, a, b, output)
    }

    /// A plan for the wide kernel, which needs a word-aligned B.
    pub fn wide16(a: FloatView, b: PackedView, output: FloatView) -> (r: Result<
        Self,
        Packed2PlanError,
    >)
        ensures
            ({
                let asked = Packed2Model { kind: Packed2Kind::Wide16, a: a@, b: b@, output: output@ };
                match asked.refusal() {
                    Some(e) => r == Err::<Self, Packed2PlanError>(e),
                    None => r is Ok && r->Ok_0@ == asked && r->Ok_0.shift() == b.shift(),
                }
            }),
    {
        Packed2Plan::with_kind(Packed2Kind::Wide16, a, b, output)
    }

    pub fn with_kind(kind: Packed2Kind, a: FloatView, b: PackedView, output: FloatView) -> (r: Result<
        Self,
        Packed2PlanError,
    >)
        ensures
            ({
                let asked = Packed2Model { kind, a: a@, b: b@, output: output@ };
                match asked.refusal() {
                    Some(e) => r == Err::<Self, Packed2PlanError>(e),
                    None => r is Ok && r->Ok_0@ == asked && r->Ok_0.shift() == b.shift(),
                }
            }),
    {
        proof {
            use_type_invariant(&a);
            use_type_invariant(&b);
            use_type_invariant(&output);
        }
        if kind == Packed2Kind::Wide16 {
            if b.col_stride != 1 {
                return Err(Packed2PlanError::ColumnStrideNotOne);
            }
            if b.offset % WEIGHTS_PER_WORD != 0 {
                return Err(Packed2PlanError::OffsetNotWordAligned);
            }
            if b.rows > 1 && b.row_stride % WEIGHTS_PER_WORD != 0 {
                return Err(Packed2PlanError::RowStrideNotWordAligned);
            }
            if b.block % WEIGHTS_PER_WORD != 0 {
                return Err(Packed2PlanError::BlockNotWordAligned);
            }
        }
        if a.cols != b.rows || output.rows != a.rows || output.cols != b.cols {
            return Err(Packed2PlanError::DimensionMismatch);
        }
        if a.cols > MAX_K {
            return Err(Packed2PlanError::DimensionOutOfRange);
        }
        if !output.is_non_overlapping_output() {
            return Err(Packed2PlanError::OutputOverlap);
        }
        let columns: u32 = match kind {
            Packed2Kind::Scalar => TILE,
            Packed2Kind::Wide16 => TILE * COLS_PER_INVOCATION,
        };
        let dispatch_groups: [u32; 3] = [div_ceil(b.cols, columns), div_ceil(a.rows, TILE), 1];
        proof {
            let asked = Packed2Model { kind, a: a@, b: b@, output: output@ };
            assert(dispatch_groups@ =~= asked.groups());
        }
        Ok(Packed2Plan { kind, a, b, output, dispatch_groups })
    }

    pub fn kind(&self) -> (r: Packed2Kind)
        ensures
            r == self@.kind,
    {
        self.kind
    }

    /// Elements a wide control's weight buffer must hold: the plan's reach
    /// rounded up to whole groups of sixteen columns.
    pub fn control_capacity_elements(&self) -> (r: u64)
        ensures
            r == ceil_div(self@.b.extent.required(), 16) * 16,
    {
        let required: u64 = self.b.required_weights();
        proof {
            use_type_invariant(&self.b);
            lemma_ceil_div_covers(required as int, 16);
        }
        div_ceil_u64(required, COLS_PER_INVOCATION as u64) * (COLS_PER_INVOCATION as u64)
    }

    pub fn m(&self) -> (r: u32)
        ensures
            r == self@.a.extent.rows,
    {
        self.a.rows
    }

    pub fn n(&self) -> (r: u32)
        ensures
            r == self@.b.extent.cols,
    {
        self.b.cols
    }

    pub fn k(&self) -> (r: u32)
        ensures
            r == self@.a.extent.cols,
    {
        self.a.cols
    }

    pub fn a(&self) -> (r: FloatView)
        ensures
            r@ == self@.a,
    {
        self.a
    }

    pub fn b(&self) -> (r: PackedView)
        ensures
            r@ == self@.b,
            r.shift() == self.shift(),
    {
        self.b
    }

    pub fn output(&self) -> (r: FloatView)
        ensures
            r@ == self@.output,
    {
        self.output
    }

    /// The same plan with the kernel's divide path selected.
    pub fn with_divide_path(self) -> (r: Self)
        ensures
            r@ == self@,
            r.shift() == BLOCK_SHIFT_DIVIDE,
    {
        proof {
            use_type_invariant(&self);
        }
        Packed2Plan {
            kind: self.kind,
            a: self.a,
            b: self.b.with_divide_path(),
            output: self.output,
            dispatch_groups: self.dispatch_groups,
        }
    }

    pub fn dispatch_groups(&self) -> (r: [u32; 3])
        ensures
            r@ == self@.groups(),
    {
        proof {
            use_type_invariant(self);
        }
        self.dispatch_groups
    }

    /// Multiply-accumulates of the product.
    pub fn macs(&self) -> (r: u64)
        ensures
            r == self@.a.extent.rows * self@.b.extent.cols * self@.a.extent.cols,
    {
        proof {
            use_type_invariant(self);
            let (m, n, k) = (self.a.rows as int, self.b.cols as int, self.a.cols as int);
            assert(0 <= m * n <= 65536 * 65536) by (nonlinear_arith)
                requires
                    0 <= m <= 65536,
                    0 <= n <= 65536,
            ;
            let mn = m * n;
            assert(0 <= mn * k <= 0x1_0000_0000 * 65536) by (nonlinear_arith)
                requires
                    0 <= mn <= 0x1_0000_0000,
                    0 <= k <= 65536,
            ;
        }
        (self.a.rows as u64) * (self.b.cols as u64) * (self.a.cols as u64)
    }

    /// Weight bytes of the operand, packed and as FP32.
    pub fn weight_bytes(&self) -> (r: (u64, u64))
        ensures
            r.0 == self@.b.packed_size(),
            r.1 == self@.b.extent.required() * 4,
    {
        (self.b.packed_bytes(), self.b.fp32_bytes())
    }

    /// The push block: `m, n, k`, three words each for A, B and C, then block,
    /// scale count and block shift.
    pub fn push_constants(&self) -> (r: [u8; PUSH_BYTES])
        ensures
            r@ == words_bytes(
                seq![
                    self@.a.extent.rows as u32,
                    self@.b.extent.cols as u32,
                    self@.a.extent.cols as u32,
                ] + self@.a.extent.push_words() + self@.b.extent.push_words()
                    + self@.output.extent.push_words() + seq![
                    self@.b.block as u32,
                    self@.b.n_scales as u32,
                    self.shift(),
                ],
            ),
            r@ == words_bytes(self@.push_words(self.shift())),
            word_at(r@, 0) == self@.a.extent.rows,
            word_at(r@, 1) == self@.b.extent.cols,
            word_at(r@, 2) == self@.a.extent.cols,
            word_at(r@, 3) == self@.a.extent.offset,
            word_at(r@, 4) == self@.a.extent.row_stride,
            word_at(r@, 5) == self@.a.extent.col_stride,
            word_at(r@, 6) == self@.b.extent.offset,
            word_at(r@, 7) == self@.b.extent.row_stride,
            word_at(r@, 8) == self@.b.extent.col_stride,
            word_at(r@, 9) == self@.output.extent.offset,
            word_at(r@, 10) == self@.output.extent.row_stride,
            word_at(r@, 11) == self@.output.extent.col_stride,
            word_at(r@, 12) == self@.b.block,
            word_at(r@, 13) == self@.b.n_scales,
            word_at(r@, 14) == self.shift(),
    {
        let words: [u32; 15] = [
            self.a.rows,
            self.b.cols,
            self.a.cols,
            self.a.offset,
            self.a.row_stride,
            self.a.col_stride,
            self.b.offset,
            self.b.row_stride,
            self.b.col_stride,
            self.output.offset,
            self.output.row_stride,
            self.output.col_stride,
            self.b.block,
            self.b.n_scales,
            self.b.block_shift,
        ];
        proof {
            assert(words@ =~= seq![
                self@.a.extent.rows as u32,
                self@.b.extent.cols as u32,
                self@.a.extent.cols as u32,
            ] + self@.a.extent.push_words() + self@.b.extent.push_words()
                + self@.output.extent.push_words() + seq![
                self@.b.block as u32,
                self@.b.n_scales as u32,
                self.shift(),
            ]);
            law_words_read_back(words@);
        }
        push_block(words)
    }
}

/// A view's addresses are counted in strides from its offset.
pub proof fn law_addresses_step_by_the_strides(x: Extent, i: int, j: int)
    ensures
        x.address(0, 0) == x.offset,
        x.address(i + 1, j) == x.address(i, j) + x.row_stride,
        x.address(i, j + 1) == x.address(i, j) + x.col_stride,
        x.required() == x.offset + (x.rows - 1) * x.row_stride + (x.cols - 1) * x.col_stride + 1,
{
    assert((i + 1) * x.row_stride == i * x.row_stride + x.row_stride) by (nonlinear_arith);
    assert((j + 1) * x.col_stride == j * x.col_stride + x.col_stride) by (nonlinear_arith);
}

/// The fifteen words of an admitted plan's block, each in its place.
pub proof fn law_push_block_holds_the_plan(p: Packed2Model, shift: u32)
    requires
        p.valid(),
    ensures
        ({
            let w = words_bytes(p.push_words(shift));
            &&& w.len() == 60
            &&& word_at(w, 0) == p.a.extent.rows
            &&& word_at(w, 1) == p.b.extent.cols
            &&& word_at(w, 2) == p.a.extent.cols
            &&& word_at(w, 3) == p.a.extent.offset
            &&& word_at(w, 4) == p.a.extent.row_stride
            &&& word_at(w, 5) == p.a.extent.col_stride
            &&& word_at(w, 6) == p.b.extent.offset
            &&& word_at(w, 7) == p.b.extent.row_stride
            &&& word_at(w, 8) == p.b.extent.col_stride
            &&& word_at(w, 9) == p.output.extent.offset
            &&& word_at(w, 10) == p.output.extent.row_stride
            &&& word_at(w, 11) == p.output.extent.col_stride
            &&& p.b.block <= u32::MAX ==> word_at(w, 12) == p.b.block
            &&& word_at(w, 13) == p.b.n_scales
            &&& word_at(w, 14) == shift
        }),
{
    law_words_read_back(p.push_words(shift));
    law_extent_stays_inside(p.a.extent, 0, 0);
    law_extent_stays_inside(p.b.extent, 0, 0);
    law_extent_stays_inside(p.output.extent, 0, 0);
    law_addresses_step_by_the_strides(p.a.extent, 0, 0);
    law_addresses_step_by_the_strides(p.b.extent, 0, 0);
    law_addresses_step_by_the_strides(p.output.extent, 0, 0);
}

/// A kernel that computes `offset + i * row_stride + j * col_stride` from the
/// words at 3, 6 and 9 of an admitted plan's block reaches each element of A, B
/// and C where the view has it.
pub proof fn law_push_block_addresses_the_views(p: Packed2Model, shift: u32, i: int, j: int)
    requires
        p.valid(),
    ensures
        ({
            let w = words_bytes(p.push_words(shift));
            &&& 0 <= i < p.a.extent.rows && 0 <= j < p.a.extent.cols ==> word_at(w, 3) + i * word_at(
                w,
                4,
            ) + j * word_at(w, 5) == p.a.extent.address(i, j)
            &&& 0 <= i < p.b.extent.rows && 0 <= j < p.b.extent.cols ==> word_at(w, 6) + i * word_at(
                w,
                7,
            ) + j * word_at(w, 8) == p.b.extent.address(i, j)
            &&& 0 <= i < p.output.extent.rows && 0 <= j < p.output.extent.cols ==> word_at(w, 9) + i
                * word_at(w, 10) + j * word_at(w, 11) == p.output.extent.address(i, j)
            &&& word_at(w, 0) == p.output.extent.rows
            &&& word_at(w, 1) == p.output.extent.cols
            &&& word_at(w, 2) == p.b.extent.rows
        }),
{
    law_push_block_holds_the_plan(p, shift);
}

/// Where a shift stands for the block size, shifting a weight's number by it
/// gives the number of its scale; 32 says that the kernel divides.
pub proof fn law_block_shift_finds_the_scale(shift: u32, block: int)
    requires
        is_block_shift(shift, block),
    ensures
        shift <= 32,
        shift < 32 ==> pow2(shift as nat) == block,
        shift == 32 <==> forall|s: nat| s < 32 ==> #[trigger] pow2(s) != block,
{
}

/// Sixteen codes share a word and a block of weights a scale: the counts are the
/// least that hold every weight, and the packed form is four bytes of each.
pub proof fn law_packed_form_is_the_least_that_holds(weights: int, block: int)
    requires
        weights >= 1,
        block >= 0,
    ensures
        (word_count(weights) - 1) * 16 < weights <= word_count(weights) * 16,
        block > 0 ==> (scale_count(weights, block) - 1) * block < weights <= scale_count(
            weights,
            block,
        ) * block,
        block == 0 ==> scale_count(weights, block) == 0,
        packed_size(weights, block) == 4 * word_count(weights) + 4 * scale_count(weights, block),
{
    lemma_ceil_div_covers(weights, 16);
    if block > 0 {
        lemma_ceil_div_covers(weights, block);
    }
}

/// An operand's packed form is four bytes per word of codes and per scale.
pub proof fn law_operand_size_counts_codes_and_scales(v: PackedModel)
    requires
        v.valid(),
    ensures
        (v.packed_size() - 4 * v.n_scales) % 4 == 0,
        ({
            let words = (v.packed_size() - 4 * v.n_scales) / 4;
            (words - 1) * 16 < v.extent.required() <= words * 16
        }),
{
    law_extent_stays_inside(v.extent, 0, 0);
    lemma_ceil_div_covers(v.extent.required(), 16);
}

/// Extents are admitted exactly when they are in range, no stride is zero, and
/// neither the elements nor the reach of the last exceed the limits.
pub proof fn law_extents_are_admitted_exactly_when_addressable(x: Extent)
    requires
        x.offset >= 0,
        x.row_stride >= 0,
        x.col_stride >= 0,
    ensures
        ({
            let sized = 1 <= x.rows <= 65536 && 1 <= x.cols <= 65536;
            let strided = x.row_stride > 0 && x.col_stride > 0;
            let few = x.rows * x.cols <= 268435456;
            let last = x.offset + (x.rows - 1) * x.row_stride + (x.cols - 1) * x.col_stride;
            let narrow = x.row_stride <= 0xffff_ffff && x.col_stride <= 0xffff_ffff;
            &&& x.valid() <==> sized && strided && few && last < 268435456 && narrow
            &&& x.refusal() == Some(Packed2PlanError::DimensionOutOfRange) <==> !sized
            &&& x.refusal() == Some(Packed2PlanError::ZeroStride) <==> sized && !strided
            &&& x.refusal() == Some(Packed2PlanError::AddressOverflow) <==> sized && strided && few
                && last >= 0xffff_ffff_ffff_ffff
        }),
{
}

/// A float view is admitted exactly when its extents are and its buffer holds its
/// last element.
pub proof fn law_float_views_are_admitted_exactly_when_they_fit(v: FloatModel)
    ensures
        v.valid() <==> v.extent.valid() && v.extent.address(v.extent.rows - 1, v.extent.cols - 1)
            < v.capacity,
        v.extent.refusal() is Some ==> v.refusal() == v.extent.refusal(),
        v.extent.valid() && !v.valid() ==> v.refusal() == Some(Packed2PlanError::CapacityTooSmall),
{
}

/// A packed view is admitted exactly when its block is not empty, its extents are
/// admitted, the codes buffer has a word for every sixteen weights up to the
/// last, and the scale table, of at most 2^28 scales, covers them and fits its
/// buffer; what fails first is the refusal.
pub proof fn law_packed_views_are_admitted_exactly_when_they_fit(v: PackedModel)
    requires
        v.block >= 0,
        v.n_scales >= 0,
        v.extent.offset >= 0,
        v.extent.row_stride >= 0,
        v.extent.col_stride >= 0,
    ensures
        ({
            let n = v.extent.required();
            let coded = v.codes_capacity * 16 >= n;
            let few = v.n_scales <= 268435456;
            let scaled = v.n_scales * v.block >= n;
            let held = v.n_scales <= v.scales_capacity;
            &&& v.valid() <==> v.block > 0 && v.extent.valid() && coded && few && scaled && held
            &&& v.refusal() == Some(Packed2PlanError::ZeroBlock) <==> v.block == 0
            &&& v.block > 0 && v.extent.refusal() is Some ==> v.refusal() == v.extent.refusal()
            &&& v.refusal() == Some(Packed2PlanError::CodesCapacityTooSmall) <==> v.block > 0
                && v.extent.valid() && !coded
            &&& v.refusal() == Some(Packed2PlanError::ScaleTableTooShort) <==> v.block > 0
                && v.extent.valid() && coded && few && !scaled
            &&& v.refusal() == Some(Packed2PlanError::CapacityTooSmall) <==> v.block > 0
                && v.extent.valid() && coded && few && scaled && !held
        }),
{
    let n = v.extent.required();
    if v.block > 0 && v.extent.valid() {
        law_extent_stays_inside(v.extent, 0, 0);
        lemma_ceil_div_covers(n, 16);
        lemma_ceil_div_covers(n, v.block);
        let s = scale_count(n, v.block);
        if v.n_scales >= s {
            assert(v.n_scales * v.block >= s * v.block) by (nonlinear_arith)
                requires
                    v.n_scales >= s,
                    v.block > 0,
            ;
        } else {
            assert(v.n_scales * v.block <= (s - 1) * v.block) by (nonlinear_arith)
                requires
                    v.n_scales <= s - 1,
                    v.block > 0,
            ;
        }
    }
}

/// Three admitted views make a plan exactly when their extents fit one another
/// and the output's elements lie apart; a wide plan needs B in whole words too.
pub proof fn law_plans_are_admitted_exactly_when_they_fit(p: Packed2Model)
    requires
        p.a.valid(),
        p.b.valid(),
        p.output.valid(),
    ensures
        ({
            let b = p.b.extent;
            let o = p.output.extent;
            let wide = p.kind is Wide16;
            let words = b.col_stride == 1 && b.offset % 16 == 0 && (b.rows > 1 ==> b.row_stride % 16
                == 0) && p.b.block % 16 == 0;
            let extents = p.a.extent.cols == b.rows && o.rows == p.a.extent.rows && o.cols == b.cols;
            let apart = (o.col_stride == 1 && o.row_stride >= o.cols) || (o.row_stride == 1
                && o.col_stride >= o.rows);
            &&& p.valid() <==> (wide ==> words) && extents && apart
            &&& p.refusal() == Some(Packed2PlanError::ColumnStrideNotOne) <==> wide && b.col_stride
                != 1
            &&& p.refusal() == Some(Packed2PlanError::OffsetNotWordAligned) <==> wide && b.col_stride
                == 1 && b.offset % 16 != 0
            &&& p.refusal() == Some(Packed2PlanError::RowStrideNotWordAligned) <==> wide
                && b.col_stride == 1 && b.offset % 16 == 0 && b.rows > 1 && b.row_stride % 16 != 0
            &&& p.refusal() == Some(Packed2PlanError::BlockNotWordAligned) <==> wide && b.col_stride
                == 1 && b.offset % 16 == 0 && (b.rows > 1 ==> b.row_stride % 16 == 0) && p.b.block
                % 16 != 0
            &&& p.refusal() == Some(Packed2PlanError::DimensionMismatch) <==> (wide ==> words)
                && !extents
            &&& p.refusal() == Some(Packed2PlanError::OutputOverlap) <==> (wide ==> words) && extents
                && !apart
        }),
{
}

/// The grid has a workgroup for every eight rows of the output and for every
/// eight columns, or 128 in a wide plan.
pub proof fn law_grid_has_a_workgroup_per_tile(p: Packed2Model)
    requires
        p.valid(),
    ensures
        p.groups().len() == 3,
        p.kind is Scalar ==> (p.groups()[0] - 1) * 8 < p.output.extent.cols <= p.groups()[0] * 8,
        p.kind is Wide16 ==> (p.groups()[0] - 1) * 128 < p.output.extent.cols <= p.groups()[0] * 128,
        (p.groups()[1] - 1) * 8 < p.output.extent.rows <= p.groups()[1] * 8,
        p.groups()[2] == 1,
{
    let x = p.groups()[0] as int;
    if p.kind is Scalar {
        lemma_ceil_div_covers(p.b.extent.cols, 8);
    } else {
        lemma_ceil_div_covers(p.b.extent.cols, 128);
    }
    lemma_ceil_div_covers(p.a.extent.rows, 8);
}

/// Each refusal of a plan has its own name.
pub proof fn law_plan_errors_are_named()
    ensures
        Packed2PlanError::DimensionOutOfRange.text() == "packed2-dimension-out-of-range"@,
        Packed2PlanError::DimensionMismatch.text() == "packed2-dimension-mismatch"@,
        Packed2PlanError::ZeroStride.text() == "packed2-zero-stride"@,
        Packed2PlanError::ZeroBlock.text() == "packed2-zero-block"@,
        Packed2PlanError::AddressOverflow.text() == "packed2-address-overflow"@,
        Packed2PlanError::AddressLimitExceeded.text() == "packed2-address-limit-exceeded"@,
        Packed2PlanError::CapacityTooSmall.text() == "packed2-capacity-too-small"@,
        Packed2PlanError::CodesCapacityTooSmall.text() == "packed2-codes-capacity-too-small"@,
        Packed2PlanError::ScaleTableTooShort.text() == "packed2-scale-table-too-short"@,
        Packed2PlanError::OutputOverlap.text() == "packed2-output-overlap"@,
        Packed2PlanError::ColumnStrideNotOne.text() == "packed2-v2-column-stride-not-one"@,
        Packed2PlanError::OffsetNotWordAligned.text() == "packed2-v2-offset-not-word-aligned"@,
        Packed2PlanError::RowStrideNotWordAligned.text()
            == "packed2-v2-row-stride-not-word-aligned"@,
        Packed2PlanError::BlockNotWordAligned.text() == "packed2-v2-block-not-word-aligned"@,
{
}

} // verus!
