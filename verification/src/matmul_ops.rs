//! Geometry, capacity and dispatch planning of the FP32 matrix product family.
//!
//! `C[b, i, j] = sum_l A[b, i, l] * B[b, l, j]`. Input views may have any
//! positive strides; an output view is a padded row-major or column-major
//! matrix whose elements do not share an address. Capacities are the caller's
//! declaration.

use crate::arith::{ceil_div, div_ceil, lemma_ceil_div_covers};
use crate::words::{block, law_words_read_back, word_at, words_bytes};
use vstd::prelude::*;

verus! {

pub const ABI: &'static str = "matmul-f32/v1";

/// Batch count ceiling.
pub const MAX_BATCH: u32 = 4_096;

/// Ceiling on a view's rows and columns.
pub const MAX_DIM: u32 = 65_536;

/// Ceiling on the reduction length, bounded by accuracy rather than addressing.
pub const MAX_K: u32 = 65_536;

/// Ceiling on the elements one operand view may address, logical and spanned.
pub const MAX_ADDRESSED_ELEMENTS: u64 = 268_435_456;

pub const TILE: u32 = 8;

pub const WORKGROUP_INVOCATIONS: u32 = 64;

pub const PUSH_BYTES: usize = 64;

/// The plain FP32 tiled kernel, behind the two plain kinds.
pub const ABI_V2: &'static str = "matmul-f32/v2";

pub const SCHEMA: u32 = 2;

pub const V2_TILE_M: u32 = 64;

pub const V2_TILE_N: u32 = 64;

pub const V2_TILE_K: u32 = 16;

pub const V2_WORKGROUP_INVOCATIONS: u32 = 256;

#[derive(Clone, Copy, Debug, PartialEq, Eq, Structural)]
pub enum MatmulKind {
    /// One product on the compensated kernel.
    Mm,
    /// A batch of products on the compensated kernel.
    Bmm,
    /// One product in plain FP32.
    MmPlain,
    /// A batch of products in plain FP32.
    BmmPlain,
}

impl MatmulKind {
    /// What a word names.
    pub open spec fn decode(word: u32) -> Option<MatmulKind> {
        if word == 0 {
            Some(MatmulKind::Mm)
        } else if word == 1 {
            Some(MatmulKind::Bmm)
        } else if word == 2 {
            Some(MatmulKind::MmPlain)
        } else if word == 3 {
            Some(MatmulKind::BmmPlain)
        } else {
            None
        }
    }

    /// Whether the plain kernel runs this kind.
    pub open spec fn plain(self) -> bool {
        self is MmPlain || self is BmmPlain
    }

    /// Whether the batch word of this kind may exceed one.
    pub open spec fn batched(self) -> bool {
        self is Bmm || self is BmmPlain
    }

    /// Whether the plain kernel runs this kind.
    pub fn is_plain(self) -> (r: bool)
        ensures
            r == self.plain(),
    {
        matches!(self, MatmulKind::MmPlain | MatmulKind::BmmPlain)
    }

    /// A batched product, whose batch word may exceed one.
    pub fn is_batched(self) -> (r: bool)
        ensures
            r == self.batched(),
    {
        matches!(self, MatmulKind::Bmm | MatmulKind::BmmPlain)
    }
}

impl TryFrom<u32> for MatmulKind {
    type Error = MatmulPlanError;

    fn try_from(value: u32) -> (r: Result<Self, MatmulPlanError>) {
        match value {
            0 => Ok(MatmulKind::Mm),
            1 => Ok(MatmulKind::Bmm),
            2 => Ok(MatmulKind::MmPlain),
            3 => Ok(MatmulKind::BmmPlain),
            _ => Err(MatmulPlanError::OperationOutOfRange),
        }
    }
}

impl vstd::std_specs::convert::TryFromSpecImpl<u32> for MatmulKind {
    open spec fn obeys_try_from_spec() -> bool {
        true
    }

    open spec fn try_from_spec(v: u32) -> Result<Self, MatmulPlanError> {
        match MatmulKind::decode(v) {
            Some(x) => Ok(x),
            None => Err(MatmulPlanError::OperationOutOfRange),
        }
    }
}

#[derive(Clone, Copy, Debug, PartialEq, Eq, Structural)]
pub enum MatmulPlanError {
    OperationOutOfRange,
    DimensionOutOfRange,
    DimensionMismatch,
    BatchMismatch,
    MmRequiresSingleBatch,
    ZeroStride,
    AddressOverflow,
    AddressLimitExceeded,
    CapacityTooSmall,
    OutputOverlap,
}

impl MatmulPlanError {
    pub open spec fn text(self) -> Seq<char> {
        match self {
            MatmulPlanError::OperationOutOfRange => "matmul-operation-out-of-range"@,
            MatmulPlanError::DimensionOutOfRange => "matmul-dimension-out-of-range"@,
            MatmulPlanError::DimensionMismatch => "matmul-dimension-mismatch"@,
            MatmulPlanError::BatchMismatch => "matmul-batch-mismatch"@,
            MatmulPlanError::MmRequiresSingleBatch => "matmul-mm-requires-single-batch"@,
            MatmulPlanError::ZeroStride => "matmul-zero-stride"@,
            MatmulPlanError::AddressOverflow => "matmul-address-overflow"@,
            MatmulPlanError::AddressLimitExceeded => "matmul-address-limit-exceeded"@,
            MatmulPlanError::CapacityTooSmall => "matmul-capacity-too-small"@,
            MatmulPlanError::OutputOverlap => "matmul-output-overlap"@,
        }
    }

    /// The refusal's stable name.
    pub fn name(&self) -> (r: &'static str)
        ensures
            r@ == self.text(),
    {
        match self {
            MatmulPlanError::OperationOutOfRange => "matmul-operation-out-of-range",
            MatmulPlanError::DimensionOutOfRange => "matmul-dimension-out-of-range",
            MatmulPlanError::DimensionMismatch => "matmul-dimension-mismatch",
            MatmulPlanError::BatchMismatch => "matmul-batch-mismatch",
            MatmulPlanError::MmRequiresSingleBatch => "matmul-mm-requires-single-batch",
            MatmulPlanError::ZeroStride => "matmul-zero-stride",
            MatmulPlanError::AddressOverflow => "matmul-address-overflow",
            MatmulPlanError::AddressLimitExceeded => "matmul-address-limit-exceeded",
            MatmulPlanError::CapacityTooSmall => "matmul-capacity-too-small",
            MatmulPlanError::OutputOverlap => "matmul-output-overlap",
        }
    }
}

/// What a `MatrixView` describes: the extents, the element strides and the
/// declared capacity of a `[batch, rows, cols]` view.
pub ghost struct MatrixModel {
    pub batch: int,
    pub rows: int,
    pub cols: int,
    pub offset: int,
    pub batch_stride: int,
    pub row_stride: int,
    pub col_stride: int,
    pub capacity: int,
}

impl MatrixModel {
    /// The elements the view names.
    pub open spec fn logical(self) -> int {
        self.batch * self.rows * self.cols
    }

    /// The address of element `(b, i, j)`.
    pub open spec fn address(self, b: int, i: int, j: int) -> int {
        self.offset + b * self.batch_stride + i * self.row_stride + j * self.col_stride
    }

    /// One past the highest address the view reaches.
    pub open spec fn required(self) -> int {
        self.address(self.batch - 1, self.rows - 1, self.cols - 1) + 1
    }

    /// The span of one matrix of the batch.
    pub open spec fn span(self) -> int {
        (self.rows - 1) * self.row_stride + (self.cols - 1) * self.col_stride + 1
    }

    /// `(b, i, j)` names an element of the view.
    pub open spec fn names(self, b: int, i: int, j: int) -> bool {
        0 <= b < self.batch && 0 <= i < self.rows && 0 <= j < self.cols
    }

    /// Why the view is refused, if it is; the first reason in this order wins.
    pub open spec fn refusal(self) -> Option<MatmulPlanError> {
        if !(1 <= self.batch <= MAX_BATCH && 1 <= self.rows <= MAX_DIM && 1 <= self.cols
            <= MAX_DIM) {
            Some(MatmulPlanError::DimensionOutOfRange)
        } else if self.batch_stride == 0 || self.row_stride == 0 || self.col_stride == 0 {
            Some(MatmulPlanError::ZeroStride)
        } else if self.logical() > MAX_ADDRESSED_ELEMENTS {
            Some(MatmulPlanError::AddressLimitExceeded)
        } else if self.required() > u64::MAX {
            Some(MatmulPlanError::AddressOverflow)
        } else if self.required() > MAX_ADDRESSED_ELEMENTS {
            Some(MatmulPlanError::AddressLimitExceeded)
        } else if self.required() > self.capacity {
            Some(MatmulPlanError::CapacityTooSmall)
        } else if self.batch_stride > u32::MAX || self.row_stride > u32::MAX || self.col_stride
            > u32::MAX {
            Some(MatmulPlanError::AddressLimitExceeded)
        } else {
            None
        }
    }

    /// An admitted view.
    pub open spec fn valid(self) -> bool {
        &&& self.offset >= 0
        &&& self.batch_stride >= 0
        &&& self.row_stride >= 0
        &&& self.col_stride >= 0
        &&& self.refusal() is None
    }

    /// A row-major or column-major matrix whose batches are disjoint.
    pub open spec fn dense_output(self) -> bool {
        &&& (self.col_stride == 1 && self.row_stride >= self.cols) || (self.row_stride == 1
            && self.col_stride >= self.rows)
        &&& self.batch == 1 || self.batch_stride >= self.span()
    }

    /// The compact row-major view.
    pub open spec fn row_major(batch: int, rows: int, cols: int, offset: int, capacity: int) -> Self {
        MatrixModel {
            batch,
            rows,
            cols,
            offset,
            batch_stride: rows * cols,
            row_stride: cols,
            col_stride: 1,
            capacity,
        }
    }

    /// The view of compact storage with rows and columns exchanged.
    pub open spec fn column_major(
        batch: int,
        rows: int,
        cols: int,
        offset: int,
        capacity: int,
    ) -> Self {
        MatrixModel {
            batch,
            rows,
            cols,
            offset,
            batch_stride: cols * rows,
            row_stride: 1,
            col_stride: rows,
            capacity,
        }
    }

    /// The view's four words of a push block.
    pub open spec fn push_words(self) -> Seq<u32> {
        seq![
            self.offset as u32,
            self.batch_stride as u32,
            self.row_stride as u32,
            self.col_stride as u32,
        ]
    }
}

/// Every element of an admitted view lies inside the declared capacity.
pub proof fn law_view_stays_inside_its_storage(v: MatrixModel, b: int, i: int, j: int)
    requires
        v.valid(),
        v.names(b, i, j),
    ensures
        0 <= v.address(b, i, j) < v.required() <= v.capacity,
{
    assert(0 <= b * v.batch_stride <= (v.batch - 1) * v.batch_stride) by (nonlinear_arith)
        requires
            0 <= b <= v.batch - 1,
            v.batch_stride >= 0,
    ;
    assert(0 <= i * v.row_stride <= (v.rows - 1) * v.row_stride) by (nonlinear_arith)
        requires
            0 <= i <= v.rows - 1,
            v.row_stride >= 0,
    ;
    assert(0 <= j * v.col_stride <= (v.cols - 1) * v.col_stride) by (nonlinear_arith)
        requires
            0 <= j <= v.cols - 1,
            v.col_stride >= 0,
    ;
}

/// The position inside one matrix of a view is below the matrix's span.
proof fn lemma_inside_span(v: MatrixModel, i: int, j: int)
    requires
        v.valid(),
        0 <= i < v.rows,
        0 <= j < v.cols,
    ensures
        0 <= i * v.row_stride + j * v.col_stride < v.span(),
{
    assert(0 <= i * v.row_stride <= (v.rows - 1) * v.row_stride) by (nonlinear_arith)
        requires
            0 <= i <= v.rows - 1,
            v.row_stride >= 0,
    ;
    assert(0 <= j * v.col_stride <= (v.cols - 1) * v.col_stride) by (nonlinear_arith)
        requires
            0 <= j <= v.cols - 1,
            v.col_stride >= 0,
    ;
}

/// Two digits in a base: equal sums have equal digits.
proof fn lemma_two_digits(base: int, hi1: int, lo1: int, hi2: int, lo2: int)
    requires
        0 <= lo1 < base,
        0 <= lo2 < base,
        hi1 * base + lo1 == hi2 * base + lo2,
    ensures
        hi1 == hi2,
        lo1 == lo2,
{
    assert((hi1 - hi2) * base == lo2 - lo1) by (nonlinear_arith)
        requires
            hi1 * base + lo1 == hi2 * base + lo2,
    ;
    assert(hi1 == hi2) by (nonlinear_arith)
        requires
            (hi1 - hi2) * base == lo2 - lo1,
            -base < lo2 - lo1 < base,
    ;
}

/// Distinct elements of an admitted output have distinct addresses.
pub proof fn law_output_elements_do_not_overlap(
    v: MatrixModel,
    b1: int,
    i1: int,
    j1: int,
    b2: int,
    i2: int,
    j2: int,
)
    requires
        v.valid(),
        v.dense_output(),
        v.names(b1, i1, j1),
        v.names(b2, i2, j2),
        v.address(b1, i1, j1) == v.address(b2, i2, j2),
    ensures
        b1 == b2 && i1 == i2 && j1 == j2,
{
    let p1 = i1 * v.row_stride + j1 * v.col_stride;
    let p2 = i2 * v.row_stride + j2 * v.col_stride;
    lemma_inside_span(v, i1, j1);
    lemma_inside_span(v, i2, j2);
    if v.batch == 1 {
        assert(b1 == 0 && b2 == 0);
        assert(b1 * v.batch_stride == 0 && b2 * v.batch_stride == 0) by (nonlinear_arith)
            requires
                b1 == 0,
                b2 == 0,
        ;
    } else {
        lemma_two_digits(v.batch_stride, b1, p1, b2, p2);
    }
    assert(p1 == p2);
    if v.col_stride == 1 && v.row_stride >= v.cols {
        assert(j1 * v.col_stride == j1 && j2 * v.col_stride == j2) by (nonlinear_arith)
            requires
                v.col_stride == 1,
        ;
        lemma_two_digits(v.row_stride, i1, j1, i2, j2);
    } else {
        assert(i1 * v.row_stride == i1 && i2 * v.row_stride == i2) by (nonlinear_arith)
            requires
                v.row_stride == 1,
        ;
        lemma_two_digits(v.col_stride, j1, i1, j2, i2);
    }
}

/// An immutable logical `[batch, rows, cols]` FP32 view into one storage.
#[derive(Clone, Copy, Debug, PartialEq, Eq, Structural)]
pub struct MatrixView {
    batch: u32,
    rows: u32,
    cols: u32,
    offset: u32,
    batch_stride: u32,
    row_stride: u32,
    col_stride: u32,
    capacity_elements: u64,
    required_elements: u64,
    logical_elements: u64,
}

impl View for MatrixView {
    type V = MatrixModel;

    closed spec fn view(&self) -> MatrixModel {
        MatrixModel {
            batch: self.batch as int,
            rows: self.rows as int,
            cols: self.cols as int,
            offset: self.offset as int,
            batch_stride: self.batch_stride as int,
            row_stride: self.row_stride as int,
            col_stride: self.col_stride as int,
            capacity: self.capacity_elements as int,
        }
    }
}

/// The extent terms of a model are the checked products of its fields.
proof fn lemma_terms(m: MatrixModel)
    requires
        1 <= m.batch <= MAX_BATCH,
        1 <= m.rows <= MAX_DIM,
        1 <= m.cols <= MAX_DIM,
        m.offset >= 0,
        m.batch_stride >= 0,
        m.row_stride >= 0,
        m.col_stride >= 0,
    ensures
        0 <= (m.batch - 1) * m.batch_stride,
        0 <= (m.rows - 1) * m.row_stride,
        0 <= (m.cols - 1) * m.col_stride,
        0 <= m.batch * m.rows <= 0x1000_0000,
        0 <= m.logical() <= 0x1000_0000_0000,
{
    assert(0 <= (m.batch - 1) * m.batch_stride) by (nonlinear_arith)
        requires
            m.batch >= 1,
            m.batch_stride >= 0,
    ;
    assert(0 <= (m.rows - 1) * m.row_stride) by (nonlinear_arith)
        requires
            m.rows >= 1,
            m.row_stride >= 0,
    ;
    assert(0 <= (m.cols - 1) * m.col_stride) by (nonlinear_arith)
        requires
            m.cols >= 1,
            m.col_stride >= 0,
    ;
    assert(0 <= m.batch * m.rows <= 4096 * 65536) by (nonlinear_arith)
        requires
            1 <= m.batch <= 4096,
            1 <= m.rows <= 65536,
    ;
    let br = m.batch * m.rows;
    assert(0 <= br * m.cols <= 0x1000_0000 * 65536) by (nonlinear_arith)
        requires
            0 <= br <= 0x1000_0000,
            1 <= m.cols <= 65536,
    ;
}

impl MatrixView {
    /// The stored sizes are those of the view, and the view was admitted.
    #[verifier::type_invariant]
    spec fn admitted(self) -> bool {
        &&& self@.valid()
        &&& self.required_elements == self@.required()
        &&& self.logical_elements == self@.logical()
    }

    pub fn new(
        batch: u32,
        rows: u32,
        cols: u32,
        offset: u64,
        batch_stride: u64,
        row_stride: u64,
        col_stride: u64,
        capacity_elements: u64,
    ) -> (r: Result<Self, MatmulPlanError>)
        ensures
            ({
                let asked = MatrixModel {
                    batch: batch as int,
                    rows: rows as int,
                    cols: cols as int,
                    offset: offset as int,
                    batch_stride: batch_stride as int,
                    row_stride: row_stride as int,
                    col_stride: col_stride as int,
                    capacity: capacity_elements as int,
                };
                match asked.refusal() {
                    Some(e) => r == Err::<Self, MatmulPlanError>(e),
                    None => r is Ok && r->Ok_0@ == asked,
                }
            }),
    {
        let ghost asked = MatrixModel {
            batch: batch as int,
            rows: rows as int,
            cols: cols as int,
            offset: offset as int,
            batch_stride: batch_stride as int,
            row_stride: row_stride as int,
            col_stride: col_stride as int,
            capacity: capacity_elements as int,
        };
        if batch == 0 || batch > MAX_BATCH || rows == 0 || rows > MAX_DIM || cols == 0 || cols
            > MAX_DIM {
            return Err(MatmulPlanError::DimensionOutOfRange);
        }
        if batch_stride == 0 || row_stride == 0 || col_stride == 0 {
            return Err(MatmulPlanError::ZeroStride);
        }
        proof {
            lemma_terms(asked);
        }
        let logical_elements: u64 = (batch as u64) * (rows as u64) * (cols as u64);
        if logical_elements > MAX_ADDRESSED_ELEMENTS {
            return Err(MatmulPlanError::AddressLimitExceeded);
        }
        let batch_term: u64 = match ((batch - 1) as u64).checked_mul(batch_stride) {
            Some(t) => t,
            None => return Err(MatmulPlanError::AddressOverflow),
        };
        let row_term: u64 = match ((rows - 1) as u64).checked_mul(row_stride) {
            Some(t) => t,
            None => return Err(MatmulPlanError::AddressOverflow),
        };
        let col_term: u64 = match ((cols - 1) as u64).checked_mul(col_stride) {
            Some(t) => t,
            None => return Err(MatmulPlanError::AddressOverflow),
        };
        let with_batch: u64 = match offset.checked_add(batch_term) {
            Some(t) => t,
            None => return Err(MatmulPlanError::AddressOverflow),
        };
        let with_rows: u64 = match with_batch.checked_add(row_term) {
            Some(t) => t,
            None => return Err(MatmulPlanError::AddressOverflow),
        };
        let max_index: u64 = match with_rows.checked_add(col_term) {
            Some(t) => t,
            None => return Err(MatmulPlanError::AddressOverflow),
        };
        let required_elements: u64 = match max_index.checked_add(1) {
            Some(t) => t,
            None => return Err(MatmulPlanError::AddressOverflow),
        };
        if required_elements > MAX_ADDRESSED_ELEMENTS {
            return Err(MatmulPlanError::AddressLimitExceeded);
        }
        if capacity_elements < required_elements {
            return Err(MatmulPlanError::CapacityTooSmall);
        }
        if batch_stride > u32::MAX as u64 || row_stride > u32::MAX as u64 || col_stride
            > u32::MAX as u64 {
            return Err(MatmulPlanError::AddressLimitExceeded);
        }
        Ok(
            MatrixView {
                batch,
                rows,
                cols,
                offset: offset as u32,
                batch_stride: batch_stride as u32,
                row_stride: row_stride as u32,
                col_stride: col_stride as u32,
                capacity_elements,
                required_elements,
                logical_elements,
            },
        )
    }

    /// A compact row-major view. `capacity_elements` counts any prefix at
    /// `offset` too.
    pub fn contiguous(batch: u32, rows: u32, cols: u32, offset: u64, capacity_elements: u64) -> (r:
        Result<Self, MatmulPlanError>)
        ensures
            ({
                let asked = MatrixModel {
                    batch: batch as int,
                    rows: rows as int,
                    cols: cols as int,
                    offset: offset as int,
                    batch_stride: rows * cols,
                    row_stride: cols as int,
                    col_stride: 1,
                    capacity: capacity_elements as int,
                };
                match asked.refusal() {
                    Some(e) => r == Err::<Self, MatmulPlanError>(e),
                    None => r is Ok && r->Ok_0@ == asked,
                }
            }),
            r is Ok ==> r->Ok_0@ == MatrixModel::row_major(
                batch as int,
                rows as int,
                cols as int,
                offset as int,
                capacity_elements as int,
            ),
    {
        proof {
            assert(0 <= rows * cols <= u32::MAX * u32::MAX) by (nonlinear_arith)
                requires
                    0 <= rows <= u32::MAX,
                    0 <= cols <= u32::MAX,
            ;
        }
        let row_stride: u64 = cols as u64;
        let batch_stride: u64 = (rows as u64) * row_stride;
        MatrixView::new(batch, rows, cols, offset, batch_stride, row_stride, 1, capacity_elements)
    }

    /// A logical `[rows, cols]` view of compact `[cols, rows]` storage.
    pub fn transposed_storage(
        batch: u32,
        rows: u32,
        cols: u32,
        offset: u64,
        capacity_elements: u64,
    ) -> (r: Result<Self, MatmulPlanError>)
        ensures
            ({
                let asked = MatrixModel {
                    batch: batch as int,
                    rows: rows as int,
                    cols: cols as int,
                    offset: offset as int,
                    batch_stride: cols * rows,
                    row_stride: 1,
                    col_stride: rows as int,
                    capacity: capacity_elements as int,
                };
                match asked.refusal() {
                    Some(e) => r == Err::<Self, MatmulPlanError>(e),
                    None => r is Ok && r->Ok_0@ == asked,
                }
            }),
            r is Ok ==> r->Ok_0@ == MatrixModel::column_major(
                batch as int,
                rows as int,
                cols as int,
                offset as int,
                capacity_elements as int,
            ),
    {
        proof {
            assert(0 <= cols * rows <= u32::MAX * u32::MAX) by (nonlinear_arith)
                requires
                    0 <= rows <= u32::MAX,
                    0 <= cols <= u32::MAX,
            ;
        }
        let col_stride: u64 = rows as u64;
        let batch_stride: u64 = (cols as u64) * col_stride;
        MatrixView::new(batch, rows, cols, offset, batch_stride, 1, col_stride, capacity_elements)
    }

    pub fn batch(&self) -> (r: u32)
        ensures
            r == self@.batch,
    {
        self.batch
    }

    pub fn rows(&self) -> (r: u32)
        ensures
            r == self@.rows,
    {
        self.rows
    }

    pub fn cols(&self) -> (r: u32)
        ensures
            r == self@.cols,
    {
        self.cols
    }

    pub fn offset(&self) -> (r: u32)
        ensures
            r == self@.offset,
    {
        self.offset
    }

    pub fn batch_stride(&self) -> (r: u32)
        ensures
            r == self@.batch_stride,
    {
        self.batch_stride
    }

    pub fn row_stride(&self) -> (r: u32)
        ensures
            r == self@.row_stride,
    {
        self.row_stride
    }

    pub fn col_stride(&self) -> (r: u32)
        ensures
            r == self@.col_stride,
    {
        self.col_stride
    }

    pub fn capacity_elements(&self) -> (r: u64)
        ensures
            r == self@.capacity,
    {
        self.capacity_elements
    }

    pub fn required_elements(&self) -> (r: u64)
        ensures
            r == self@.required(),
    {
        proof {
            use_type_invariant(self);
        }
        self.required_elements
    }

    pub fn logical_elements(&self) -> (r: u64)
        ensures
            r == self@.logical(),
    {
        proof {
            use_type_invariant(self);
        }
        self.logical_elements
    }

    fn matrix_span(&self) -> (r: u64)
        ensures
            r == self@.span(),
    {
        proof {
            use_type_invariant(self);
            lemma_terms(self@);
        }
        ((self.rows - 1) as u64) * (self.row_stride as u64) + ((self.cols - 1) as u64) * (
        self.col_stride as u64) + 1
    }

    fn is_non_overlapping_output(&self) -> (r: bool)
        ensures
            r == self@.dense_output(),
    {
        let row_major = self.col_stride == 1 && self.row_stride >= self.cols;
        let column_major = self.row_stride == 1 && self.col_stride >= self.rows;
        (row_major || column_major) && (self.batch == 1 || self.batch_stride as u64
            >= self.matrix_span())
    }
}

/// What a `MatmulPlan` holds.
pub ghost struct MatmulModel {
    pub kind: MatmulKind,
    pub a: MatrixModel,
    pub b: MatrixModel,
    pub output: MatrixModel,
}

impl MatmulModel {
    /// Why three admitted views make no product, if they make none.
    pub open spec fn refusal(self) -> Option<MatmulPlanError> {
        if self.a.batch != self.b.batch || self.a.batch != self.output.batch {
            Some(MatmulPlanError::BatchMismatch)
        } else if !self.kind.batched() && self.a.batch != 1 {
            Some(MatmulPlanError::MmRequiresSingleBatch)
        } else if self.a.cols != self.b.rows || self.output.rows != self.a.rows || self.output.cols
            != self.b.cols {
            Some(MatmulPlanError::DimensionMismatch)
        } else if self.a.cols > MAX_K {
            Some(MatmulPlanError::DimensionOutOfRange)
        } else if !self.output.dense_output() {
            Some(MatmulPlanError::OutputOverlap)
        } else {
            None
        }
    }

    /// An admitted plan.
    pub open spec fn valid(self) -> bool {
        self.a.valid() && self.b.valid() && self.output.valid() && self.refusal() is None
    }

    pub open spec fn tile_rows(self) -> int {
        if self.kind.plain() {
            V2_TILE_M as int
        } else {
            TILE as int
        }
    }

    pub open spec fn tile_cols(self) -> int {
        if self.kind.plain() {
            V2_TILE_N as int
        } else {
            TILE as int
        }
    }

    /// The workgroup grid: columns, rows, batch.
    pub open spec fn groups(self) -> Seq<u32> {
        seq![
            ceil_div(self.b.cols, self.tile_cols()) as u32,
            ceil_div(self.a.rows, self.tile_rows()) as u32,
            self.a.batch as u32,
        ]
    }

    /// The sixteen words of the push block.
    pub open spec fn push_words(self) -> Seq<u32> {
        seq![self.a.batch as u32, self.a.rows as u32, self.b.cols as u32, self.a.cols as u32]
            + self.a.push_words() + self.b.push_words() + self.output.push_words()
    }
}

/// The grid's tiles cover every row and column of the output, and none of them
/// lies wholly outside it.
pub proof fn law_grid_covers_the_output(p: MatmulModel)
    requires
        p.valid(),
    ensures
        p.groups()[0] * p.tile_cols() >= p.output.cols,
        (p.groups()[0] - 1) * p.tile_cols() < p.output.cols,
        p.groups()[1] * p.tile_rows() >= p.output.rows,
        (p.groups()[1] - 1) * p.tile_rows() < p.output.rows,
        p.groups()[2] == p.output.batch,
{
    lemma_ceil_div_covers(p.b.cols, p.tile_cols());
    lemma_ceil_div_covers(p.a.rows, p.tile_rows());
}

/// Geometry and dispatch metadata for one three-buffer product.
#[derive(Clone, Copy, Debug, PartialEq, Eq)]
pub struct MatmulPlan {
    kind: MatmulKind,
    a: MatrixView,
    b: MatrixView,
    output: MatrixView,
    dispatch_groups: [u32; 3],
}

impl View for MatmulPlan {
    type V = MatmulModel;

    closed spec fn view(&self) -> MatmulModel {
        MatmulModel { kind: self.kind, a: self.a@, b: self.b@, output: self.output@ }
    }
}

impl MatmulPlan {
    #[verifier::type_invariant]
    spec fn admitted(self) -> bool {
        self@.valid() && self.dispatch_groups@ == self@.groups()
    }

    pub fn new(kind: MatmulKind, a: MatrixView, b: MatrixView, output: MatrixView) -> (r: Result<
        Self,
        MatmulPlanError,
    >)
        ensures
            ({
                let asked = MatmulModel { kind, a: a@, b: b@, output: output@ };
                match asked.refusal() {
                    Some(e) => r == Err::<Self, MatmulPlanError>(e),
                    None => r is Ok && r->Ok_0@ == asked,
                }
            }),
    {
        proof {
            use_type_invariant(&a);
            use_type_invariant(&b);
            use_type_invariant(&output);
        }
        if a.batch != b.batch || a.batch != output.batch {
            return Err(MatmulPlanError::BatchMismatch);
        }
        if !kind.is_batched() && a.batch != 1 {
            return Err(MatmulPlanError::MmRequiresSingleBatch);
        }
        if a.cols != b.rows || output.rows != a.rows || output.cols != b.cols {
            return Err(MatmulPlanError::DimensionMismatch);
        }
        if a.cols > MAX_K {
            return Err(MatmulPlanError::DimensionOutOfRange);
        }
        if !output.is_non_overlapping_output() {
            return Err(MatmulPlanError::OutputOverlap);
        }
        // the grid is cut to the tile of the kernel that the kind binds
        let dispatch_groups: [u32; 3] = if kind.is_plain() {
            [div_ceil(b.cols, V2_TILE_N), div_ceil(a.rows, V2_TILE_M), a.batch]
        } else {
            [div_ceil(b.cols, TILE), div_ceil(a.rows, TILE), a.batch]
        };
        proof {
            let asked = MatmulModel { kind, a: a@, b: b@, output: output@ };
            assert(dispatch_groups@ =~= asked.groups());
        }
        Ok(MatmulPlan { kind, a, b, output, dispatch_groups })
    }

    pub fn mm(a: MatrixView, b: MatrixView, output: MatrixView) -> (r: Result<
        Self,
        MatmulPlanError,
    >)
        ensures
            ({
                let asked = MatmulModel { kind: MatmulKind::Mm, a: a@, b: b@, output: output@ };
                match asked.refusal() {
                    Some(e) => r == Err::<Self, MatmulPlanError>(e),
                    None => r is Ok && r->Ok_0@ == asked,
                }
            }),
    {
        MatmulPlan::new(MatmulKind::Mm, a, b, output)
    }

    pub fn bmm(a: MatrixView, b: MatrixView, output: MatrixView) -> (r: Result<
        Self,
        MatmulPlanError,
    >)
        ensures
            ({
                let asked = MatmulModel { kind: MatmulKind::Bmm, a: a@, b: b@, output: output@ };
                match asked.refusal() {
                    Some(e) => r == Err::<Self, MatmulPlanError>(e),
                    None => r is Ok && r->Ok_0@ == asked,
                }
            }),
    {
        MatmulPlan::new(MatmulKind::Bmm, a, b, output)
    }

    pub fn mm_plain(a: MatrixView, b: MatrixView, output: MatrixView) -> (r: Result<
        Self,
        MatmulPlanError,
    >)
        ensures
            ({
                let asked = MatmulModel { kind: MatmulKind::MmPlain, a: a@, b: b@, output: output@ };
                match asked.refusal() {
                    Some(e) => r == Err::<Self, MatmulPlanError>(e),
                    None => r is Ok && r->Ok_0@ == asked,
                }
            }),
    {
        MatmulPlan::new(MatmulKind::MmPlain, a, b, output)
    }

    pub fn bmm_plain(a: MatrixView, b: MatrixView, output: MatrixView) -> (r: Result<
        Self,
        MatmulPlanError,
    >)
        ensures
            ({
                let asked = MatmulModel { kind: MatmulKind::BmmPlain, a: a@, b: b@, output: output@ };
                match asked.refusal() {
                    Some(e) => r == Err::<Self, MatmulPlanError>(e),
                    None => r is Ok && r->Ok_0@ == asked,
                }
            }),
    {
        MatmulPlan::new(MatmulKind::BmmPlain, a, b, output)
    }

    pub fn kind(&self) -> (r: MatmulKind)
        ensures
            r == self@.kind,
    {
        self.kind
    }

    pub fn batch(&self) -> (r: u32)
        ensures
            r == self@.a.batch,
    {
        self.a.batch
    }

    pub fn m(&self) -> (r: u32)
        ensures
            r == self@.a.rows,
    {
        self.a.rows
    }

    pub fn n(&self) -> (r: u32)
        ensures
            r == self@.b.cols,
    {
        self.b.cols
    }

    pub fn k(&self) -> (r: u32)
        ensures
            r == self@.a.cols,
    {
        self.a.cols
    }

    pub fn a(&self) -> (r: MatrixView)
        ensures
            r@ == self@.a,
    {
        self.a
    }

    pub fn b(&self) -> (r: MatrixView)
        ensures
            r@ == self@.b,
    {
        self.b
    }

    pub fn output(&self) -> (r: MatrixView)
        ensures
            r@ == self@.output,
    {
        self.output
    }

    pub fn dispatch_groups(&self) -> (r: [u32; 3])
        ensures
            r@ == self@.groups(),
    {
        proof {
            use_type_invariant(self);
        }
        self.dispatch_groups
    }

    /// The plan's 64-byte push block: `batch, m, n, k`, then offset and strides
    /// of A, B and C.
    pub fn push_constants(&self) -> (r: [u8; PUSH_BYTES])
        ensures
            r@ == words_bytes(self@.push_words()),
            word_at(r@, 0) == self@.a.batch,
            word_at(r@, 1) == self@.a.rows,
            word_at(r@, 2) == self@.b.cols,
            word_at(r@, 3) == self@.a.cols,
            word_at(r@, 4) == self@.a.offset,
            word_at(r@, 5) == self@.a.batch_stride,
            word_at(r@, 6) == self@.a.row_stride,
            word_at(r@, 7) == self@.a.col_stride,
            word_at(r@, 8) == self@.b.offset,
            word_at(r@, 9) == self@.b.batch_stride,
            word_at(r@, 10) == self@.b.row_stride,
            word_at(r@, 11) == self@.b.col_stride,
            word_at(r@, 12) == self@.output.offset,
            word_at(r@, 13) == self@.output.batch_stride,
            word_at(r@, 14) == self@.output.row_stride,
            word_at(r@, 15) == self@.output.col_stride,
    {
        let words: [u32; 16] = [
            self.a.batch,
            self.a.rows,
            self.b.cols,
            self.a.cols,
            self.a.offset,
            self.a.batch_stride,
            self.a.row_stride,
            self.a.col_stride,
            self.b.offset,
            self.b.batch_stride,
            self.b.row_stride,
            self.b.col_stride,
            self.output.offset,
            self.output.batch_stride,
            self.output.row_stride,
            self.output.col_stride,
        ];
        proof {
            assert(words@ =~= self@.push_words());
            law_words_read_back(words@);
        }
        block(words)
    }
}

/// Addresses are counted in strides from the offset: the first element stands
/// there, and a step along a dimension moves by that dimension's stride.
pub proof fn law_addresses_step_by_the_strides(v: MatrixModel, b: int, i: int, j: int)
    ensures
        v.address(0, 0, 0) == v.offset,
        v.address(b + 1, i, j) == v.address(b, i, j) + v.batch_stride,
        v.address(b, i + 1, j) == v.address(b, i, j) + v.row_stride,
        v.address(b, i, j + 1) == v.address(b, i, j) + v.col_stride,
{
    assert((b + 1) * v.batch_stride == b * v.batch_stride + v.batch_stride) by (nonlinear_arith);
    assert((i + 1) * v.row_stride == i * v.row_stride + v.row_stride) by (nonlinear_arith);
    assert((j + 1) * v.col_stride == j * v.col_stride + v.col_stride) by (nonlinear_arith);
}

/// A compact view holds its elements one after another: row after row, or column
/// after column where its storage is transposed.
pub proof fn law_compact_views_leave_no_gaps(
    batch: int,
    rows: int,
    cols: int,
    offset: int,
    capacity: int,
    b: int,
    i: int,
    j: int,
)
    ensures
        MatrixModel::row_major(batch, rows, cols, offset, capacity).address(b, i, j) == offset + (b
            * rows + i) * cols + j,
        MatrixModel::column_major(batch, rows, cols, offset, capacity).address(b, i, j) == offset
            + (b * cols + j) * rows + i,
        MatrixModel::row_major(batch, rows, cols, offset, capacity).required() == offset + batch
            * rows * cols,
        MatrixModel::column_major(batch, rows, cols, offset, capacity).required() == offset + batch
            * rows * cols,
{
    assert(b * (rows * cols) + i * cols == (b * rows + i) * cols) by (nonlinear_arith);
    assert(b * (cols * rows) + j * rows == (b * cols + j) * rows) by (nonlinear_arith);
    assert((batch - 1) * (rows * cols) + (rows - 1) * cols + (cols - 1) + 1 == batch * rows * cols)
        by (nonlinear_arith);
    assert((batch - 1) * (cols * rows) + (rows - 1) + (cols - 1) * rows + 1 == batch * rows * cols)
        by (nonlinear_arith);
}

/// A view is admitted exactly when its extents are in range, no stride is zero,
/// and neither the elements it names nor the reach of its last element exceed
/// the limits; which of these fails first is the refusal.
pub proof fn law_views_are_admitted_exactly_when_they_fit(v: MatrixModel)
    requires
        v.offset >= 0,
        v.batch_stride >= 0,
        v.row_stride >= 0,
        v.col_stride >= 0,
    ensures
        ({
            let sized = 1 <= v.batch <= 4096 && 1 <= v.rows <= 65536 && 1 <= v.cols <= 65536;
            let strided = v.batch_stride > 0 && v.row_stride > 0 && v.col_stride > 0;
            let few = v.batch * v.rows * v.cols <= 268435456;
            let last = v.offset + (v.batch - 1) * v.batch_stride + (v.rows - 1) * v.row_stride + (
            v.cols - 1) * v.col_stride;
            let narrow = v.batch_stride <= 0xffff_ffff && v.row_stride <= 0xffff_ffff
                && v.col_stride <= 0xffff_ffff;
            &&& v.valid() <==> sized && strided && few && last < 268435456 && last < v.capacity
                && narrow
            &&& v.refusal() == Some(MatmulPlanError::DimensionOutOfRange) <==> !sized
            &&& v.refusal() == Some(MatmulPlanError::ZeroStride) <==> sized && !strided
            &&& v.refusal() == Some(MatmulPlanError::AddressOverflow) <==> sized && strided && few
                && last >= 0xffff_ffff_ffff_ffff
            &&& v.refusal() == Some(MatmulPlanError::CapacityTooSmall) <==> sized && strided && few
                && last < 268435456 && last >= v.capacity
        }),
{
}

/// Three admitted views make a product exactly when their batches agree, with
/// more than one matrix only in a batched kind, the extents fit one another, and
/// the output's elements lie apart.
pub proof fn law_products_are_admitted_exactly_when_they_fit(p: MatmulModel)
    requires
        p.a.valid(),
        p.b.valid(),
        p.output.valid(),
    ensures
        ({
            let batches = p.a.batch == p.b.batch && p.b.batch == p.output.batch;
            let several = p.kind is Bmm || p.kind is BmmPlain || p.a.batch == 1;
            let extents = p.a.cols == p.b.rows && p.a.rows == p.output.rows && p.b.cols
                == p.output.cols;
            let o = p.output;
            let apart = ((o.col_stride == 1 && o.row_stride >= o.cols) || (o.row_stride == 1
                && o.col_stride >= o.rows)) && (o.batch == 1 || o.batch_stride > (o.rows - 1)
                * o.row_stride + (o.cols - 1) * o.col_stride);
            &&& p.valid() <==> batches && several && extents && apart
            &&& p.refusal() == Some(MatmulPlanError::BatchMismatch) <==> !batches
            &&& p.refusal() == Some(MatmulPlanError::MmRequiresSingleBatch) <==> batches && !several
            &&& p.refusal() == Some(MatmulPlanError::DimensionMismatch) <==> batches && several
                && !extents
            &&& p.refusal() == Some(MatmulPlanError::OutputOverlap) <==> batches && several
                && extents && !apart
        }),
{
}

/// The block of an admitted product holds it word by word, and a kernel that
/// computes `offset + b * batch_stride + i * row_stride + j * col_stride` from
/// the words at 4, 8 and 12 reaches each element of A, B and C where the view has
/// it.
pub proof fn law_push_block_addresses_the_views(p: MatmulModel, b: int, i: int, j: int)
    requires
        p.valid(),
    ensures
        ({
            let w = words_bytes(p.push_words());
            &&& w.len() == 64
            &&& word_at(w, 0) == p.a.batch && word_at(w, 0) == p.b.batch && word_at(w, 0)
                == p.output.batch
            &&& word_at(w, 1) == p.a.rows && word_at(w, 1) == p.output.rows
            &&& word_at(w, 2) == p.b.cols && word_at(w, 2) == p.output.cols
            &&& word_at(w, 3) == p.a.cols && word_at(w, 3) == p.b.rows
            &&& p.a.names(b, i, j) ==> word_at(w, 4) + b * word_at(w, 5) + i * word_at(w, 6) + j
                * word_at(w, 7) == p.a.address(b, i, j)
            &&& p.b.names(b, i, j) ==> word_at(w, 8) + b * word_at(w, 9) + i * word_at(w, 10) + j
                * word_at(w, 11) == p.b.address(b, i, j)
            &&& p.output.names(b, i, j) ==> word_at(w, 12) + b * word_at(w, 13) + i * word_at(w, 14)
                + j * word_at(w, 15) == p.output.address(b, i, j)
        }),
{
    law_push_block_holds_the_product(p);
}

/// The sixteen words of an admitted product's block, each in its place.
pub proof fn law_push_block_holds_the_product(p: MatmulModel)
    requires
        p.valid(),
    ensures
        ({
            let w = words_bytes(p.push_words());
            &&& w.len() == 64
            &&& word_at(w, 0) == p.a.batch
            &&& word_at(w, 1) == p.a.rows
            &&& word_at(w, 2) == p.b.cols
            &&& word_at(w, 3) == p.a.cols
            &&& word_at(w, 4) == p.a.offset
            &&& word_at(w, 5) == p.a.batch_stride
            &&& word_at(w, 6) == p.a.row_stride
            &&& word_at(w, 7) == p.a.col_stride
            &&& word_at(w, 8) == p.b.offset
            &&& word_at(w, 9) == p.b.batch_stride
            &&& word_at(w, 10) == p.b.row_stride
            &&& word_at(w, 11) == p.b.col_stride
            &&& word_at(w, 12) == p.output.offset
            &&& word_at(w, 13) == p.output.batch_stride
            &&& word_at(w, 14) == p.output.row_stride
            &&& word_at(w, 15) == p.output.col_stride
        }),
{
    law_words_read_back(p.push_words());
    law_view_stays_inside_its_storage(p.a, 0, 0, 0);
    law_view_stays_inside_its_storage(p.b, 0, 0, 0);
    law_view_stays_inside_its_storage(p.output, 0, 0, 0);
    law_addresses_step_by_the_strides(p.a, 0, 0, 0);
    law_addresses_step_by_the_strides(p.b, 0, 0, 0);
    law_addresses_step_by_the_strides(p.output, 0, 0, 0);
}

/// The grid has a workgroup for every tile of the output: 64 by 64 where the
/// plain kernel runs, 8 by 8 where the compensated one does, in every matrix of
/// the batch.
pub proof fn law_grid_has_a_workgroup_per_tile(p: MatmulModel, b: int, i: int, j: int)
    requires
        p.valid(),
        p.output.names(b, i, j),
    ensures
        p.groups().len() == 3,
        p.kind is MmPlain || p.kind is BmmPlain ==> 0 <= j / 64 < p.groups()[0] && 0 <= i / 64
            < p.groups()[1] && (p.groups()[0] - 1) * 64 < p.output.cols && (p.groups()[1] - 1) * 64
            < p.output.rows,
        p.kind is Mm || p.kind is Bmm ==> 0 <= j / 8 < p.groups()[0] && 0 <= i / 8 < p.groups()[1]
            && (p.groups()[0] - 1) * 8 < p.output.cols && (p.groups()[1] - 1) * 8 < p.output.rows,
        p.groups()[2] == p.output.batch,
{
    law_grid_covers_the_output(p);
    let tile = p.tile_cols();
    let (x, y) = (p.groups()[0] as int, p.groups()[1] as int);
    assert(tile == p.tile_rows() && (tile == 64 || tile == 8));
    assert(tile == 64 ==> x * tile == x * 64 && (x - 1) * tile == (x - 1) * 64 && y * tile == y * 64
        && (y - 1) * tile == (y - 1) * 64) by (nonlinear_arith);
    assert(tile == 8 ==> x * tile == x * 8 && (x - 1) * tile == (x - 1) * 8 && y * tile == y * 8 && (
    y - 1) * tile == (y - 1) * 8) by (nonlinear_arith);
    if !p.kind.plain() {
        assert(x * 8 >= p.output.cols && y * 8 >= p.output.rows);
        assert((x - 1) * 8 < p.output.cols && (y - 1) * 8 < p.output.rows);
    }
}

/// The kinds are numbered from 0 to 3, and no other word names one; the odd ones
/// are batched and the upper two plain.
pub proof fn law_kinds_are_numbered(word: u32)
    ensures
        MatmulKind::decode(word) is Some <==> word <= 3,
        MatmulKind::decode(word) matches Some(k) ==> {
            &&& k is Mm <==> word == 0
            &&& k is Bmm <==> word == 1
            &&& k is MmPlain <==> word == 2
            &&& k is BmmPlain <==> word == 3
            &&& k.batched() <==> word % 2 == 1
            &&& k.plain() <==> word >= 2
        },
{
}

/// Each refusal of a plan has its own name.
pub proof fn law_plan_errors_are_named()
    ensures
        MatmulPlanError::OperationOutOfRange.text() == "matmul-operation-out-of-range"@,
        MatmulPlanError::DimensionOutOfRange.text() == "matmul-dimension-out-of-range"@,
        MatmulPlanError::DimensionMismatch.text() == "matmul-dimension-mismatch"@,
        MatmulPlanError::BatchMismatch.text() == "matmul-batch-mismatch"@,
        MatmulPlanError::MmRequiresSingleBatch.text() == "matmul-mm-requires-single-batch"@,
        MatmulPlanError::ZeroStride.text() == "matmul-zero-stride"@,
        MatmulPlanError::AddressOverflow.text() == "matmul-address-overflow"@,
        MatmulPlanError::AddressLimitExceeded.text() == "matmul-address-limit-exceeded"@,
        MatmulPlanError::CapacityTooSmall.text() == "matmul-capacity-too-small"@,
        MatmulPlanError::OutputOverlap.text() == "matmul-output-overlap"@,
{
}

} // verus!
