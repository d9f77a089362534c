//! Geometry, capacity, aliasing and dispatch planning of the strided pointwise
//! family.
//!
//! `out[i] = f(x[i], y[i], z[i])` over one row-major shape of at most four
//! dimensions. Each operand addresses its storage through its own element
//! offset and per-dimension element strides; a broadcast is a stride of zero.
//! Storage identities and capacities are the caller's declaration.

use crate::arith::{ceil_div, div_ceil, lemma_ceil_div_covers};
use crate::words::{
    block, law_words_read_back, lemma_bytes_round_trip, lemma_word_at, read_word, signed_word,
    word_at, word_of_signed, words_bytes,
};
use vstd::prelude::*;

verus! {

pub const ABI: &'static str = "pointwise-f32/v1";

pub const SCHEMA: u32 = 3;

/// The last operation word this schema decodes.
pub const LAST_OP: u32 = 23;

/// Dimensions the push block carries; fewer are padded with extent 1, stride 0.
pub const MAX_NDIM: usize = 4;

/// `x`, `y`, `z`, `out`, in binding order.
pub const OPERANDS: usize = 4;

pub const WORKGROUP_INVOCATIONS: u32 = 256;

pub const ELEMENTS_PER_INVOCATION: u32 = 4;

/// Elements one workgroup handles.
pub const ELEMENTS_PER_GROUP: u32 = 1_024;

/// Every address a view touches is below this.
pub const ADDRESS_LIMIT: u64 = 2_147_483_648;

pub const PUSH_BYTES: usize = 120;

pub const PUSH_WORDS: usize = 30;

/// Flags bit: `y` is the scalar in the `b` word, and the `y` buffer is not read.
pub const FLAG_Y_SCALAR: u32 = 1;

/// Flags bit reserved for a scalar `z`; a block that sets it is refused.
pub const FLAG_Z_SCALAR: u32 = 2;

/// Flags bits: buffer `x`, `y`, `z` and `out` hold two-byte elements.
pub const FLAG_BF16: [u32; 4] = [4, 8, 16, 32];

const STORAGE_FLAGS: u32 = 60;

const KNOWN_FLAGS: u32 = 61;

/// The storage bit of slot `index`.
pub open spec fn storage_bit(index: int) -> u32 {
    if index == 0 {
        4u32
    } else if index == 1 {
        8u32
    } else if index == 2 {
        16u32
    } else {
        32u32
    }
}

/// The flags that are storage bits.
pub open spec fn storage_flags_of(flags: u32) -> u32 {
    flags & 60u32
}

/// Bytes one element of slot `index` occupies under a flags word.
pub fn slot_element_bytes(flags: u32, index: usize) -> (r: u64)
    requires
        index < OPERANDS,
    ensures
        r == (if flags & storage_bit(index as int) != 0 {
            2u64
        } else {
            4u64
        }),
{
    let bit: u32 = FLAG_BF16[index];
    if flags & bit != 0 {
        2
    } else {
        4
    }
}

/// The module a flags word selects: `x` in bit 0 through `out` in bit 3.
pub open spec fn module_index(flags: u32) -> int {
    (if flags & 4u32 != 0 { 1int } else { 0 }) + (if flags & 8u32 != 0 { 2int } else { 0 }) + (if flags
        & 16u32 != 0 { 4int } else { 0 }) + (if flags & 32u32 != 0 { 8int } else { 0 })
}

/// The module a flags word selects; 0 is the one for four-byte storage.
pub fn storage_module(flags: u32) -> (r: usize)
    ensures
        r == module_index(flags),
        r < 16,
{
    let x: usize = if flags & 4u32 != 0 { 1 } else { 0 };
    let y: usize = if flags & 8u32 != 0 { 2 } else { 0 };
    let z: usize = if flags & 16u32 != 0 { 4 } else { 0 };
    let out: usize = if flags & 32u32 != 0 { 8 } else { 0 };
    x + y + z + out
}

/// The operation word.
#[derive(Clone, Copy, Debug, PartialEq, Eq, Structural)]
pub enum PointwiseOp {
    /// `x + a * y`
    AddScaled,
    /// `x - a * y`
    SubScaled,
    /// `x * y`
    Mul,
    /// `x / y`
    Div,
    /// `a`
    Fill,
    /// `x`
    Copy,
    /// `1 / x`
    Reciprocal,
    /// `|x|`
    Abs,
    /// `sqrt(x)`
    Sqrt,
    /// `1 / sqrt(x)`
    Rsqrt,
    /// `-x`
    Neg,
    /// `x ^ y`
    Pow,
    /// `a ^ x`
    PowScalarBase,
    /// `min(max(x, a), b)`
    Clamp,
    /// `x / (1 + exp(-x))`
    Silu,
    /// `1 / (1 + exp(-x))`
    Sigmoid,
    /// `x * (1 - y) * y`
    SigmoidBackward,
    /// `x + a * y * z`
    Addcmul,
    /// `x + a * y / z`
    Addcdiv,
    /// from `x` to `y` by the weight `a`
    Lerp,
    /// `cos(x)`
    Cos,
    /// `sin(x)`
    Sin,
    /// `a + i * b` over the linear index `i`
    Iota,
    /// `x` on and above a diagonal of the last two dimensions, else 0
    Triu,
}

impl PointwiseOp {
    /// The operation's word.
    pub open spec fn word(self) -> u32 {
        match self {
            PointwiseOp::AddScaled => 0,
            PointwiseOp::SubScaled => 1,
            PointwiseOp::Mul => 2,
            PointwiseOp::Div => 3,
            PointwiseOp::Fill => 4,
            PointwiseOp::Copy => 5,
            PointwiseOp::Reciprocal => 6,
            PointwiseOp::Abs => 7,
            PointwiseOp::Sqrt => 8,
            PointwiseOp::Rsqrt => 9,
            PointwiseOp::Neg => 10,
            PointwiseOp::Pow => 11,
            PointwiseOp::PowScalarBase => 12,
            PointwiseOp::Clamp => 13,
            PointwiseOp::Silu => 14,
            PointwiseOp::Sigmoid => 15,
            PointwiseOp::SigmoidBackward => 16,
            PointwiseOp::Addcmul => 17,
            PointwiseOp::Addcdiv => 18,
            PointwiseOp::Lerp => 19,
            PointwiseOp::Cos => 20,
            PointwiseOp::Sin => 21,
            PointwiseOp::Iota => 22,
            PointwiseOp::Triu => 23,
        }
    }

    /// The operation a word names.
    pub open spec fn decode(word: u32) -> Option<PointwiseOp> {
        if word == 0 {
            Some(PointwiseOp::AddScaled)
        } else if word == 1 {
            Some(PointwiseOp::SubScaled)
        } else if word == 2 {
            Some(PointwiseOp::Mul)
        } else if word == 3 {
            Some(PointwiseOp::Div)
        } else if word == 4 {
            Some(PointwiseOp::Fill)
        } else if word == 5 {
            Some(PointwiseOp::Copy)
        } else if word == 6 {
            Some(PointwiseOp::Reciprocal)
        } else if word == 7 {
            Some(PointwiseOp::Abs)
        } else if word == 8 {
            Some(PointwiseOp::Sqrt)
        } else if word == 9 {
            Some(PointwiseOp::Rsqrt)
        } else if word == 10 {
            Some(PointwiseOp::Neg)
        } else if word == 11 {
            Some(PointwiseOp::Pow)
        } else if word == 12 {
            Some(PointwiseOp::PowScalarBase)
        } else if word == 13 {
            Some(PointwiseOp::Clamp)
        } else if word == 14 {
            Some(PointwiseOp::Silu)
        } else if word == 15 {
            Some(PointwiseOp::Sigmoid)
        } else if word == 16 {
            Some(PointwiseOp::SigmoidBackward)
        } else if word == 17 {
            Some(PointwiseOp::Addcmul)
        } else if word == 18 {
            Some(PointwiseOp::Addcdiv)
        } else if word == 19 {
            Some(PointwiseOp::Lerp)
        } else if word == 20 {
            Some(PointwiseOp::Cos)
        } else if word == 21 {
            Some(PointwiseOp::Sin)
        } else if word == 22 {
            Some(PointwiseOp::Iota)
        } else if word == 23 {
            Some(PointwiseOp::Triu)
        } else {
            None
        }
    }

    /// Whether the operation reads an operand's buffer.
    pub open spec fn reads(self, o: Operand) -> bool {
        match o {
            Operand::X => !(self is Fill || self is Iota),
            Operand::Y => self is AddScaled || self is SubScaled || self is Mul || self is Div
                || self is Pow || self is SigmoidBackward || self is Addcmul || self is Addcdiv
                || self is Lerp,
            Operand::Z => self is Addcmul || self is Addcdiv,
            Operand::Out => false,
        }
    }

    pub fn reads_x(self) -> (r: bool)
        ensures
            r == !(self is Fill || self is Iota),
            r == self.reads(Operand::X),
    {
        !matches!(self, PointwiseOp::Fill | PointwiseOp::Iota)
    }

    pub fn reads_y(self) -> (r: bool)
        ensures
            r == (self is AddScaled || self is SubScaled || self is Mul || self is Div
                || self is Pow || self is SigmoidBackward || self is Addcmul || self is Addcdiv
                || self is Lerp),
            r == self.reads(Operand::Y),
    {
        matches!(
            self,
            PointwiseOp::AddScaled
                | PointwiseOp::SubScaled
                | PointwiseOp::Mul
                | PointwiseOp::Div
                | PointwiseOp::Pow
                | PointwiseOp::SigmoidBackward
                | PointwiseOp::Addcmul
                | PointwiseOp::Addcdiv
                | PointwiseOp::Lerp
        )
    }

    pub fn reads_z(self) -> (r: bool)
        ensures
            r == (self is Addcmul || self is Addcdiv),
            r == self.reads(Operand::Z),
    {
        matches!(self, PointwiseOp::Addcmul | PointwiseOp::Addcdiv)
    }
}

impl TryFrom<u32> for PointwiseOp {
    type Error = PointwisePlanError;

    fn try_from(value: u32) -> (r: Result<Self, PointwisePlanError>) {
        match value {
            0 => Ok(PointwiseOp::AddScaled),
            1 => Ok(PointwiseOp::SubScaled),
            2 => Ok(PointwiseOp::Mul),
            3 => Ok(PointwiseOp::Div),
            4 => Ok(PointwiseOp::Fill),
            5 => Ok(PointwiseOp::Copy),
            6 => Ok(PointwiseOp::Reciprocal),
            7 => Ok(PointwiseOp::Abs),
            8 => Ok(PointwiseOp::Sqrt),
            9 => Ok(PointwiseOp::Rsqrt),
            10 => Ok(PointwiseOp::Neg),
            11 => Ok(PointwiseOp::Pow),
            12 => Ok(PointwiseOp::PowScalarBase),
            13 => Ok(PointwiseOp::Clamp),
            14 => Ok(PointwiseOp::Silu),
            15 => Ok(PointwiseOp::Sigmoid),
            16 => Ok(PointwiseOp::SigmoidBackward),
            17 => Ok(PointwiseOp::Addcmul),
            18 => Ok(PointwiseOp::Addcdiv),
            19 => Ok(PointwiseOp::Lerp),
            20 => Ok(PointwiseOp::Cos),
            21 => Ok(PointwiseOp::Sin),
            22 => Ok(PointwiseOp::Iota),
            23 => Ok(PointwiseOp::Triu),
            _ => Err(PointwisePlanError::OperationOutOfRange),
        }
    }
}

impl vstd::std_specs::convert::TryFromSpecImpl<u32> for PointwiseOp {
    open spec fn obeys_try_from_spec() -> bool {
        true
    }

    open spec fn try_from_spec(v: u32) -> Result<Self, PointwisePlanError> {
        match PointwiseOp::decode(v) {
            Some(op) => Ok(op),
            None => Err(PointwisePlanError::OperationOutOfRange),
        }
    }
}

/// One of the four bound buffers.
#[derive(Clone, Copy, Debug, PartialEq, Eq, Structural)]
pub enum Operand {
    X,
    Y,
    Z,
    Out,
}

impl Operand {
    pub const ALL: [Operand; 4] = [Operand::X, Operand::Y, Operand::Z, Operand::Out];

    pub const INPUTS: [Operand; 3] = [Operand::X, Operand::Y, Operand::Z];

    /// The operand's binding slot.
    pub open spec fn slot(self) -> int {
        match self {
            Operand::X => 0,
            Operand::Y => 1,
            Operand::Z => 2,
            Operand::Out => 3,
        }
    }

    pub fn index(self) -> (r: usize)
        ensures
            r == self.slot(),
    {
        self as usize
    }
}

#[derive(Clone, Copy, Debug, PartialEq, Eq, Structural)]
pub enum PointwisePlanError {
    OperationOutOfRange,
    NdimOutOfRange,
    TriuNeedsTwoDimensions,
    ZeroElements,
    AddressOverflow,
    OutputOverlapsInput,
    OutputSelfOverlap,
    FlagsOutOfRange,
    ElementCountMismatch,
}

impl PointwisePlanError {
    pub open spec fn text(self) -> Seq<char> {
        match self {
            PointwisePlanError::OperationOutOfRange => "pointwise-operation-out-of-range"@,
            PointwisePlanError::NdimOutOfRange => "pointwise-ndim-out-of-range"@,
            PointwisePlanError::TriuNeedsTwoDimensions => "pointwise-triu-needs-two-dimensions"@,
            PointwisePlanError::ZeroElements => "pointwise-zero-elements"@,
            PointwisePlanError::AddressOverflow => "pointwise-address-overflow"@,
            PointwisePlanError::OutputOverlapsInput => "pointwise-output-overlaps-input"@,
            PointwisePlanError::OutputSelfOverlap => "pointwise-output-self-overlap"@,
            PointwisePlanError::FlagsOutOfRange => "pointwise-flags-out-of-range"@,
            PointwisePlanError::ElementCountMismatch => "pointwise-element-count-mismatch"@,
        }
    }

    /// The refusal's stable name.
    pub fn name(&self) -> (r: &'static str)
        ensures
            r@ == self.text(),
    {
        match self {
            PointwisePlanError::OperationOutOfRange => "pointwise-operation-out-of-range",
            PointwisePlanError::NdimOutOfRange => "pointwise-ndim-out-of-range",
            PointwisePlanError::TriuNeedsTwoDimensions => "pointwise-triu-needs-two-dimensions",
            PointwisePlanError::ZeroElements => "pointwise-zero-elements",
            PointwisePlanError::AddressOverflow => "pointwise-address-overflow",
            PointwisePlanError::OutputOverlapsInput => "pointwise-output-overlaps-input",
            PointwisePlanError::OutputSelfOverlap => "pointwise-output-self-overlap",
            PointwisePlanError::FlagsOutOfRange => "pointwise-flags-out-of-range",
            PointwisePlanError::ElementCountMismatch => "pointwise-element-count-mismatch",
        }
    }
}

/// What a `StridedView` addresses.
pub ghost struct StridedModel {
    pub offset: u64,
    pub strides: Seq<u64>,
}

/// The extent of dimension `d`; dimensions beyond the shape have extent 1.
pub open spec fn extent(shape: Seq<u64>, d: int) -> int {
    if 0 <= d < shape.len() {
        shape[d] as int
    } else {
        1
    }
}

/// How far the first `d` dimensions reach from the offset.
pub open spec fn span(strides: Seq<u64>, shape: Seq<u64>, d: nat) -> int
    decreases d,
{
    if d == 0 {
        0
    } else {
        span(strides, shape, (d - 1) as nat) + (extent(shape, d - 1) - 1) * strides[d - 1]
    }
}

/// Where the first `d` coordinates lead from the offset.
pub open spec fn displacement(strides: Seq<u64>, c: Seq<int>, d: nat) -> int
    decreases d,
{
    if d == 0 {
        0
    } else {
        displacement(strides, c, (d - 1) as nat) + c[d - 1] * strides[d - 1]
    }
}

/// The span of the first `k` dimensions that lie inside dimension `d`: those
/// longer than one with a stride no greater than `d`'s.
pub open spec fn inner_span(strides: Seq<u64>, shape: Seq<u64>, d: int, k: nat) -> int
    decreases k,
{
    if k == 0 {
        0
    } else {
        inner_span(strides, shape, d, (k - 1) as nat) + (if k - 1 != d && strides[k - 1]
            <= strides[d] {
            (extent(shape, k - 1) - 1) * strides[k - 1]
        } else {
            0
        })
    }
}

/// The product of the first `d` extents.
pub open spec fn count(shape: Seq<u64>, d: nat) -> int
    decreases d,
{
    if d == 0 {
        1
    } else {
        count(shape, (d - 1) as nat) * extent(shape, d - 1)
    }
}

/// The elements of a shape.
pub open spec fn elements(shape: Seq<u64>) -> int {
    count(shape, 4)
}

/// `c` names an element of the shape.
pub open spec fn coordinate(shape: Seq<u64>, c: Seq<int>) -> bool {
    &&& c.len() == 4
    &&& forall|d: int| 0 <= d < 4 ==> 0 <= #[trigger] c[d] < extent(shape, d)
}

/// Each dimension longer than one strides over everything inside it.
pub open spec fn nested(strides: Seq<u64>, shape: Seq<u64>) -> bool {
    forall|d: int|
        0 <= d < 4 && #[trigger] extent(shape, d) > 1 ==> strides[d] >= 1 + inner_span(
            strides,
            shape,
            d,
            4,
        )
}

impl StridedModel {
    /// The address of a coordinate.
    pub open spec fn address(self, c: Seq<int>) -> int {
        self.offset + displacement(self.strides, c, 4)
    }

    /// The highest address the view touches.
    pub open spec fn last_address(self, shape: Seq<u64>) -> int {
        self.offset + span(self.strides, shape, 4)
    }

    /// The view stays inside the address limit and its storage.
    pub open spec fn fits(self, shape: Seq<u64>, capacity: u64) -> bool {
        self.last_address(shape) < ADDRESS_LIMIT && self.last_address(shape) < capacity
    }

    /// The same addresses with the strides that never contribute zeroed.
    pub open spec fn canonical(self, shape: Seq<u64>) -> StridedModel {
        StridedModel {
            offset: self.offset,
            strides: Seq::new(
                4,
                |d: int|
                    if extent(shape, d) > 1 {
                        self.strides[d]
                    } else {
                        0u64
                    },
            ),
        }
    }

    /// The view's five words of a push block.
    pub open spec fn push_words(self) -> Seq<u32> {
        seq![
            self.strides[0] as u32,
            self.strides[1] as u32,
            self.strides[2] as u32,
            self.strides[3] as u32,
            self.offset as u32,
        ]
    }
}

proof fn lemma_span_bounds(strides: Seq<u64>, shape: Seq<u64>, d: int, k: nat)
    requires
        forall|i: int| 0 <= i < 4 ==> #[trigger] extent(shape, i) >= 1,
        k <= 4,
    ensures
        0 <= inner_span(strides, shape, d, k) <= span(strides, shape, k),
    decreases k,
{
    if k > 0 {
        lemma_span_bounds(strides, shape, d, (k - 1) as nat);
        assert(extent(shape, k - 1) >= 1);
        assert((extent(shape, k - 1) - 1) * strides[k - 1] >= 0) by (nonlinear_arith)
            requires
                extent(shape, k - 1) >= 1,
                strides[k - 1] >= 0,
        ;
    }
}

proof fn lemma_span_monotone(strides: Seq<u64>, shape: Seq<u64>, j: nat, k: nat)
    requires
        forall|i: int| 0 <= i < 4 ==> #[trigger] extent(shape, i) >= 1,
        j <= k <= 4,
    ensures
        0 <= span(strides, shape, j) <= span(strides, shape, k),
    decreases k,
{
    lemma_span_bounds(strides, shape, 0, j);
    if j < k {
        lemma_span_monotone(strides, shape, j, (k - 1) as nat);
        assert(extent(shape, k - 1) >= 1);
        assert((extent(shape, k - 1) - 1) * strides[k - 1] >= 0) by (nonlinear_arith)
            requires
                extent(shape, k - 1) >= 1,
                strides[k - 1] >= 0,
        ;
    }
}

proof fn lemma_displacement_bounds(strides: Seq<u64>, shape: Seq<u64>, c: Seq<int>, k: nat)
    requires
        coordinate(shape, c),
        k <= 4,
    ensures
        0 <= displacement(strides, c, k) <= span(strides, shape, k),
    decreases k,
{
    if k > 0 {
        lemma_displacement_bounds(strides, shape, c, (k - 1) as nat);
        assert(0 <= c[k - 1] < extent(shape, k - 1));
        assert(0 <= c[k - 1] * strides[k - 1] <= (extent(shape, k - 1) - 1) * strides[k - 1])
            by (nonlinear_arith)
            requires
                0 <= c[k - 1] <= extent(shape, k - 1) - 1,
                strides[k - 1] >= 0,
        ;
    }
}

/// Every element of a view that fits lies inside its storage.
pub proof fn law_view_stays_inside_its_storage(
    v: StridedModel,
    shape: Seq<u64>,
    capacity: u64,
    c: Seq<int>,
)
    requires
        v.fits(shape, capacity),
        coordinate(shape, c),
    ensures
        0 <= v.address(c) < capacity,
        v.address(c) < ADDRESS_LIMIT,
{
    lemma_displacement_bounds(v.strides, shape, c, 4);
}

/// The canonical view reaches the same address at every coordinate.
pub proof fn law_canonical_keeps_every_address(v: StridedModel, shape: Seq<u64>, c: Seq<int>)
    requires
        coordinate(shape, c),
    ensures
        v.canonical(shape).address(c) == v.address(c),
{
    lemma_canonical_displacement(v, shape, c, 4);
}

proof fn lemma_canonical_displacement(v: StridedModel, shape: Seq<u64>, c: Seq<int>, k: nat)
    requires
        coordinate(shape, c),
        k <= 4,
    ensures
        displacement(v.canonical(shape).strides, c, k) == displacement(v.strides, c, k),
    decreases k,
{
    if k > 0 {
        lemma_canonical_displacement(v, shape, c, (k - 1) as nat);
        assert(0 <= c[k - 1] < extent(shape, k - 1));
        if extent(shape, k - 1) <= 1 {
            let kept = v.canonical(shape).strides[k - 1];
            assert(c[k - 1] * kept == 0 && c[k - 1] * v.strides[k - 1] == 0) by (nonlinear_arith)
                requires
                    c[k - 1] == 0,
            ;
        }
    }
}

proof fn lemma_canonical_span(v: StridedModel, shape: Seq<u64>, k: nat)
    requires
        forall|i: int| 0 <= i < 4 ==> #[trigger] extent(shape, i) >= 1,
        k <= 4,
    ensures
        span(v.canonical(shape).strides, shape, k) == span(v.strides, shape, k),
    decreases k,
{
    if k > 0 {
        lemma_canonical_span(v, shape, (k - 1) as nat);
        assert(extent(shape, k - 1) >= 1);
        if extent(shape, k - 1) <= 1 {
            let kept = v.canonical(shape).strides[k - 1];
            assert((extent(shape, k - 1) - 1) * kept == 0 && (extent(shape, k - 1) - 1)
                * v.strides[k - 1] == 0) by (nonlinear_arith)
                requires
                    extent(shape, k - 1) == 1,
            ;
        }
    }
}

/// The dimensions that two coordinates disagree on, other than `d`, move the
/// address by no more than what lies inside `d`.
proof fn lemma_inner_move(
    strides: Seq<u64>,
    shape: Seq<u64>,
    c1: Seq<int>,
    c2: Seq<int>,
    d: int,
    k: nat,
)
    requires
        coordinate(shape, c1),
        coordinate(shape, c2),
        0 <= d < 4,
        k <= 4,
        forall|e: int| 0 <= e < 4 && #[trigger] c1[e] != c2[e] ==> strides[e] <= strides[d],
    ensures
        ({
            let moved = displacement(strides, c1, k) - displacement(strides, c2, k);
            let own = if d < k {
                (c1[d] - c2[d]) * strides[d]
            } else {
                0
            };
            -inner_span(strides, shape, d, k) <= moved - own <= inner_span(strides, shape, d, k)
        }),
    decreases k,
{
    if k > 0 {
        let e = k - 1;
        lemma_inner_move(strides, shape, c1, c2, d, e as nat);
        let gap = c1[e] - c2[e];
        let reach = extent(shape, e) - 1;
        assert(0 <= c1[e] < extent(shape, e) && 0 <= c2[e] < extent(shape, e));
        assert(c1[e] * strides[e] - c2[e] * strides[e] == gap * strides[e]) by (nonlinear_arith)
            requires
                gap == c1[e] - c2[e],
        ;
        assert(-(reach * strides[e]) <= gap * strides[e] <= reach * strides[e]) by (nonlinear_arith)
            requires
                -reach <= gap <= reach,
                strides[e] >= 0,
        ;
        if gap == 0 {
            assert(gap * strides[e] == 0) by (nonlinear_arith)
                requires
                    gap == 0,
            ;
            assert(reach * strides[e] >= 0) by (nonlinear_arith)
                requires
                    reach >= 0,
                    strides[e] >= 0,
            ;
        } else {
            assert(c1[e] != c2[e]);
        }
    }
}

/// A dimension on which two coordinates disagree, with the largest stride of
/// those.
spec fn leading(strides: Seq<u64>, c1: Seq<int>, c2: Seq<int>, d: int) -> bool {
    &&& 0 <= d < 4
    &&& c1[d] != c2[d]
    &&& forall|e: int| 0 <= e < 4 && #[trigger] c1[e] != c2[e] ==> strides[e] <= strides[d]
}

proof fn lemma_leading_exists(strides: Seq<u64>, c1: Seq<int>, c2: Seq<int>, e: int) -> (d: int)
    requires
        0 <= e < 4,
        c1[e] != c2[e],
    ensures
        leading(strides, c1, c2, d),
{
    let rank = |i: int| 0 <= i < 4 && c1[i] != c2[i];
    let a = if rank(0) && strides[0] >= strides[e] { 0 } else { e };
    let b = if rank(1) && strides[1] >= strides[a] { 1 } else { a };
    let c = if rank(2) && strides[2] >= strides[b] { 2 } else { b };
    if rank(3) && strides[3] >= strides[c] { 3 } else { c }
}

/// Where the strides nest, distinct elements of the shape have distinct
/// addresses.
pub proof fn law_nested_addresses_are_distinct(
    v: StridedModel,
    shape: Seq<u64>,
    c1: Seq<int>,
    c2: Seq<int>,
)
    requires
        nested(v.strides, shape),
        coordinate(shape, c1),
        coordinate(shape, c2),
        v.address(c1) == v.address(c2),
    ensures
        c1 == c2,
{
    if exists|e: int| 0 <= e < 4 && #[trigger] c1[e] != c2[e] {
        let e = choose|e: int| 0 <= e < 4 && #[trigger] c1[e] != c2[e];
        let d = lemma_leading_exists(v.strides, c1, c2, e);
        lemma_inner_move(v.strides, shape, c1, c2, d, 4);
        assert(0 <= c1[d] < extent(shape, d) && 0 <= c2[d] < extent(shape, d));
        assert(extent(shape, d) > 1);
        let own = (c1[d] - c2[d]) * v.strides[d];
        assert(own >= v.strides[d] || own <= -v.strides[d]) by (nonlinear_arith)
            requires
                own == (c1[d] - c2[d]) * v.strides[d],
                c1[d] - c2[d] >= 1 || c1[d] - c2[d] <= -1,
                v.strides[d] >= 0,
        ;
    }
    assert(c1 =~= c2);
}

/// One step along dimension `d` and none along the others.
spec fn unit_coordinate(d: int) -> Seq<int> {
    Seq::new(
        4,
        |i: int|
            if i == d {
                1int
            } else {
                0int
            },
    )
}

proof fn lemma_unit_displacement(strides: Seq<u64>, d: int, k: nat)
    requires
        0 <= d,
        k <= 4,
    ensures
        displacement(strides, unit_coordinate(d), k) == (if d < k {
            strides[d] as int
        } else {
            0
        }),
    decreases k,
{
    if k > 0 {
        lemma_unit_displacement(strides, d, (k - 1) as nat);
        let c = unit_coordinate(d)[k - 1];
        let s = strides[k - 1];
        assert(c == 1 ==> c * s == s) by (nonlinear_arith);
        assert(c == 0 ==> c * s == 0) by (nonlinear_arith);
    }
}

/// Two views that address the same elements of a shape are one view once
/// their strides that never contribute are zeroed.
pub proof fn law_equal_addressing_is_one_canonical_view(
    v: StridedModel,
    w: StridedModel,
    shape: Seq<u64>,
)
    requires
        forall|i: int| 0 <= i < 4 ==> #[trigger] extent(shape, i) >= 1,
        forall|c: Seq<int>| coordinate(shape, c) ==> #[trigger] v.address(c) == w.address(c),
    ensures
        v.canonical(shape) == w.canonical(shape),
{
    lemma_unit_displacement(v.strides, 4, 4);
    lemma_unit_displacement(w.strides, 4, 4);
    assert(coordinate(shape, unit_coordinate(4)));
    assert(v.address(unit_coordinate(4)) == w.address(unit_coordinate(4)));
    assert forall|d: int| 0 <= d < 4 implies v.canonical(shape).strides[d] == w.canonical(
        shape,
    ).strides[d] by {
        if extent(shape, d) > 1 {
            lemma_unit_displacement(v.strides, d, 4);
            lemma_unit_displacement(w.strides, d, 4);
            assert(coordinate(shape, unit_coordinate(d)));
            assert(v.address(unit_coordinate(d)) == w.address(unit_coordinate(d)));
        }
    }
    assert(v.canonical(shape).strides =~= w.canonical(shape).strides);
}

proof fn lemma_inner_span_holds(strides: Seq<u64>, shape: Seq<u64>, d: int, j: int, k: nat)
    requires
        forall|i: int| 0 <= i < 4 ==> #[trigger] extent(shape, i) >= 1,
        0 <= j < k <= 4,
        j != d,
        strides[j] <= strides[d],
    ensures
        inner_span(strides, shape, d, k) >= (extent(shape, j) - 1) * strides[j],
    decreases k,
{
    lemma_span_bounds(strides, shape, d, (k - 1) as nat);
    if j < k - 1 {
        lemma_inner_span_holds(strides, shape, d, j, (k - 1) as nat);
        assert(extent(shape, k - 1) >= 1);
        assert((extent(shape, k - 1) - 1) * strides[k - 1] >= 0) by (nonlinear_arith)
            requires
                extent(shape, k - 1) >= 1,
                strides[k - 1] >= 0,
        ;
    }
}

/// A dimension longer than one that does not move, or that moves as far as
/// another such dimension, keeps the strides from nesting.
pub proof fn law_repeated_strides_do_not_nest(
    strides: Seq<u64>,
    shape: Seq<u64>,
    i: int,
    j: int,
)
    requires
        forall|e: int| 0 <= e < 4 ==> #[trigger] extent(shape, e) >= 1,
        0 <= i < 4,
        extent(shape, i) > 1,
        strides[i] == 0 || (0 <= j < 4 && j != i && extent(shape, j) > 1 && strides[j]
            == strides[i]),
    ensures
        !nested(strides, shape),
{
    lemma_span_bounds(strides, shape, i, 4);
    if strides[i] != 0 {
        lemma_inner_span_holds(strides, shape, i, j, 4);
        assert((extent(shape, j) - 1) * strides[j] >= strides[j]) by (nonlinear_arith)
            requires
                extent(shape, j) >= 2,
                strides[j] >= 0,
        ;
    }
}

/// The view walks a compact tensor of extents `base`: each of its dimensions
/// longer than one takes steps of `step` elements along a dimension of the
/// tensor that no other of them takes, and stays inside it. Slices, steps,
/// transposes and permutations are all of this form.
pub open spec fn walks(
    base: Seq<u64>,
    pick: Seq<int>,
    step: Seq<int>,
    strides: Seq<u64>,
    shape: Seq<u64>,
) -> bool {
    &&& forall|i: int| 0 <= i < base.len() ==> #[trigger] base[i] >= 1
    &&& forall|d: int| 0 <= d < 4 ==> #[trigger] extent(shape, d) >= 1
    &&& forall|d: int|
        0 <= d < 4 && #[trigger] extent(shape, d) > 1 ==> {
            &&& 0 <= pick[d] < base.len()
            &&& step[d] >= 1
            &&& strides[d] == step[d] * count_from(base, pick[d] + 1)
            &&& (extent(shape, d) - 1) * step[d] < base[pick[d]]
        }
    &&& forall|d: int, e: int|
        0 <= d < 4 && 0 <= e < 4 && d != e && #[trigger] extent(shape, d) > 1
            && #[trigger] extent(shape, e) > 1 ==> pick[d] != pick[e]
}

/// How far dimension `i` of a compact tensor reaches.
spec fn room(base: Seq<u64>, i: int) -> int {
    (base[i] - 1) * count_from(base, i + 1)
}

/// Dimension `j` of the view lies inside its dimension `d`.
spec fn lies_inside(strides: Seq<u64>, shape: Seq<u64>, d: int, j: int) -> bool {
    j != d && strides[j] <= strides[d] && extent(shape, j) > 1
}

/// One of the first `k` dimensions of the view inside `d` walks dimension `i`
/// of the tensor.
spec fn taken(
    strides: Seq<u64>,
    shape: Seq<u64>,
    pick: Seq<int>,
    d: int,
    i: int,
    k: nat,
) -> bool {
    exists|j: int| 0 <= j < k && #[trigger] lies_inside(strides, shape, d, j) && pick[j] == i
}

/// How far the dimensions of the tensor from `i` on reach that are taken.
spec fn taken_room(
    base: Seq<u64>,
    strides: Seq<u64>,
    shape: Seq<u64>,
    pick: Seq<int>,
    d: int,
    i: int,
    k: nat,
) -> int
    decreases base.len() - i,
{
    if i >= base.len() {
        0
    } else {
        taken_room(base, strides, shape, pick, d, i + 1, k) + (if taken(
            strides,
            shape,
            pick,
            d,
            i,
            k,
        ) {
            room(base, i)
        } else {
            0
        })
    }
}

proof fn lemma_count_from_positive(base: Seq<u64>, i: int)
    requires
        forall|e: int| 0 <= e < base.len() ==> #[trigger] base[e] >= 1,
        0 <= i,
    ensures
        count_from(base, i) >= 1,
    decreases base.len() - i,
{
    if i < base.len() {
        lemma_count_from_positive(base, i + 1);
        let inner = count_from(base, i + 1);
        assert(inner * base[i] >= 1) by (nonlinear_arith)
            requires
                inner >= 1,
                base[i] >= 1,
        ;
    }
}

proof fn lemma_count_from_shrinks(base: Seq<u64>, i: int, j: int)
    requires
        forall|e: int| 0 <= e < base.len() ==> #[trigger] base[e] >= 1,
        0 <= i <= j,
    ensures
        count_from(base, i) >= count_from(base, j),
    decreases j - i,
{
    if i < j {
        lemma_count_from_shrinks(base, i + 1, j);
        lemma_count_from_positive(base, i + 1);
        if i < base.len() {
            let inner = count_from(base, i + 1);
            assert(inner * base[i] >= inner) by (nonlinear_arith)
                requires
                    inner >= 1,
                    base[i] >= 1,
            ;
        }
    }
}

proof fn lemma_taken_room_bound(
    base: Seq<u64>,
    strides: Seq<u64>,
    shape: Seq<u64>,
    pick: Seq<int>,
    d: int,
    i: int,
    k: nat,
)
    requires
        forall|e: int| 0 <= e < base.len() ==> #[trigger] base[e] >= 1,
        0 <= i,
    ensures
        0 <= taken_room(base, strides, shape, pick, d, i, k) <= count_from(base, i) - 1,
    decreases base.len() - i,
{
    lemma_count_from_positive(base, i);
    if i < base.len() {
        lemma_taken_room_bound(base, strides, shape, pick, d, i + 1, k);
        lemma_count_from_positive(base, i + 1);
        let inner = count_from(base, i + 1);
        assert(0 <= (base[i] - 1) * inner && (base[i] - 1) * inner + inner == inner * base[i])
            by (nonlinear_arith)
            requires
                inner >= 1,
                base[i] >= 1,
        ;
    }
}

/// Taking one more dimension of the view takes its room and no other.
proof fn lemma_taken_room_step(
    base: Seq<u64>,
    strides: Seq<u64>,
    shape: Seq<u64>,
    pick: Seq<int>,
    step: Seq<int>,
    d: int,
    i: int,
    k: nat,
)
    requires
        walks(base, pick, step, strides, shape),
        0 <= i,
        k < 4,
    ensures
        taken_room(base, strides, shape, pick, d, i, k + 1) == taken_room(
            base,
            strides,
            shape,
            pick,
            d,
            i,
            k,
        ) + (if lies_inside(strides, shape, d, k as int) && i <= pick[k as int] {
            room(base, pick[k as int])
        } else {
            0
        }),
    decreases base.len() - i,
{
    let j = k as int;
    if lies_inside(strides, shape, d, j) {
        assert(extent(shape, j) > 1);
    }
    if i < base.len() {
        lemma_taken_room_step(base, strides, shape, pick, step, d, i + 1, k);
        if taken(strides, shape, pick, d, i, k) {
            let e = choose|e: int|
                0 <= e < k && #[trigger] lies_inside(strides, shape, d, e) && pick[e] == i;
            assert(extent(shape, e) > 1);
            assert(0 <= e < k + 1 && lies_inside(strides, shape, d, e) && pick[e] == i);
            assert(taken(strides, shape, pick, d, i, k + 1));
        } else if taken(strides, shape, pick, d, i, k + 1) {
            let e = choose|e: int|
                0 <= e < k + 1 && #[trigger] lies_inside(strides, shape, d, e) && pick[e] == i;
            assert(e == j);
        } else {
            assert(!(lies_inside(strides, shape, d, j) && pick[j] == i));
        }
    }
}

/// What lies inside `d` walks only the dimensions of the tensor inside the
/// one that `d` walks.
proof fn lemma_inside_is_finer(
    base: Seq<u64>,
    strides: Seq<u64>,
    shape: Seq<u64>,
    pick: Seq<int>,
    step: Seq<int>,
    d: int,
    j: int,
)
    requires
        walks(base, pick, step, strides, shape),
        0 <= d < 4,
        0 <= j < 4,
        extent(shape, d) > 1,
        lies_inside(strides, shape, d, j),
    ensures
        pick[d] < pick[j] < base.len(),
        (extent(shape, j) - 1) * strides[j] <= room(base, pick[j]),
{
    let p = pick[d];
    let q = pick[j];
    let own = count_from(base, p + 1);
    let other = count_from(base, q + 1);
    lemma_count_from_positive(base, p + 1);
    lemma_count_from_positive(base, q + 1);
    assert(extent(shape, j) > 1);
    assert(p != q);
    if q < p {
        lemma_count_from_shrinks(base, q + 1, p);
        let wide = base[p];
        let s = step[d];
        let t = step[j];
        let reach = extent(shape, d) - 1;
        assert(s * own < own * wide) by (nonlinear_arith)
            requires
                reach >= 1,
                s >= 1,
                reach * s < wide,
                own >= 1,
        ;
        assert(t * other >= other) by (nonlinear_arith)
            requires
                t >= 1,
                other >= 1,
        ;
    }
    let reach = extent(shape, j) - 1;
    let t = step[j];
    let wide = base[q];
    assert(reach * (t * other) <= (wide - 1) * other) by (nonlinear_arith)
        requires
            reach * t < wide,
            other >= 1,
    ;
}

proof fn lemma_inside_fits(
    base: Seq<u64>,
    strides: Seq<u64>,
    shape: Seq<u64>,
    pick: Seq<int>,
    step: Seq<int>,
    d: int,
    k: nat,
)
    requires
        walks(base, pick, step, strides, shape),
        0 <= d < 4,
        extent(shape, d) > 1,
        k <= 4,
    ensures
        inner_span(strides, shape, d, k) <= taken_room(
            base,
            strides,
            shape,
            pick,
            d,
            pick[d] + 1,
            k,
        ),
    decreases k,
{
    lemma_taken_room_bound(base, strides, shape, pick, d, pick[d] + 1, k);
    if k > 0 {
        let j = k - 1;
        lemma_inside_fits(base, strides, shape, pick, step, d, j as nat);
        lemma_taken_room_step(base, strides, shape, pick, step, d, pick[d] + 1, j as nat);
        assert(extent(shape, j) >= 1);
        if lies_inside(strides, shape, d, j) {
            lemma_inside_is_finer(base, strides, shape, pick, step, d, j);
        } else if extent(shape, j) == 1 {
            assert((extent(shape, j) - 1) * strides[j] == 0) by (nonlinear_arith)
                requires
                    extent(shape, j) == 1,
            ;
        }
    }
}

/// Every slice, step, transpose or permutation of a compact tensor has
/// strides that nest.
pub proof fn law_compact_walks_nest(
    base: Seq<u64>,
    pick: Seq<int>,
    step: Seq<int>,
    strides: Seq<u64>,
    shape: Seq<u64>,
)
    requires
        walks(base, pick, step, strides, shape),
    ensures
        nested(strides, shape),
{
    assert forall|d: int| 0 <= d < 4 && #[trigger] extent(shape, d) > 1 implies strides[d] >= 1
        + inner_span(strides, shape, d, 4) by {
        lemma_inside_fits(base, strides, shape, pick, step, d, 4);
        lemma_taken_room_bound(base, strides, shape, pick, d, pick[d] + 1, 4);
        lemma_count_from_positive(base, pick[d] + 1);
        let own = count_from(base, pick[d] + 1);
        assert(step[d] * own >= own) by (nonlinear_arith)
            requires
                step[d] >= 1,
                own >= 1,
        ;
    }
}

/// One operand's element offset and per-dimension element strides, indexed
/// like the plan's shape.
#[derive(Clone, Copy, Debug, PartialEq, Eq)]
pub struct StridedView {
    pub offset: u64,
    pub strides: [u64; 4],
}

impl View for StridedView {
    type V = StridedModel;

    open spec fn view(&self) -> StridedModel {
        StridedModel { offset: self.offset, strides: self.strides@ }
    }
}

/// The product of the extents from dimension `d` on.
pub open spec fn count_from(shape: Seq<u64>, d: int) -> int
    decreases shape.len() - d,
{
    if d >= shape.len() {
        1
    } else {
        count_from(shape, d + 1) * shape[d]
    }
}

impl StridedView {
    pub fn new(offset: u64, strides: [u64; 4]) -> (r: Self)
        ensures
            r.offset == offset,
            r.strides == strides,
    {
        StridedView { offset, strides }
    }

    /// Row-major strides for `shape` at offset zero: each stride is the product
    /// of the extents after it.
    pub fn contiguous(shape: &[u64]) -> (r: Result<Self, PointwisePlanError>)
        ensures
            match r {
                Ok(v) => {
                    &&& shape.len() <= MAX_NDIM
                    &&& forall|d: int| 0 <= d < shape.len() ==> count_from(shape@, d) <= u64::MAX
                    &&& v.offset == 0
                    &&& forall|d: int|
                        0 <= d < 4 ==> #[trigger] v.strides@[d] == (if d < shape.len() {
                            count_from(shape@, d + 1)
                        } else {
                            0
                        })
                },
                Err(PointwisePlanError::NdimOutOfRange) => shape.len() > MAX_NDIM,
                Err(e) => {
                    &&& e == PointwisePlanError::AddressOverflow
                    &&& shape.len() <= MAX_NDIM
                    &&& exists|d: int| 0 <= d < shape.len() && #[trigger] count_from(shape@, d) > u64::MAX
                },
            },
    {
        if shape.len() > MAX_NDIM {
            return Err(PointwisePlanError::NdimOutOfRange);
        }
        let mut strides: [u64; 4] = [0u64; 4];
        let mut stride: u64 = 1;
        let mut d: usize = shape.len();
        while d > 0
            invariant
                d <= shape.len() <= MAX_NDIM,
                stride == count_from(shape@, d as int),
                forall|e: int| d <= e < shape.len() ==> count_from(shape@, e) <= u64::MAX,
                forall|e: int|
                    0 <= e < 4 ==> #[trigger] strides@[e] == (if d <= e < shape.len() {
                        count_from(shape@, e + 1)
                    } else {
                        0
                    }),
            decreases d,
        {
            d -= 1;
            strides[d] = stride;
            stride = match stride.checked_mul(shape[d]) {
                Some(next) => next,
                None => {
                    proof {
                        assert(count_from(shape@, d as int) > u64::MAX);
                    }
                    return Err(PointwisePlanError::AddressOverflow);
                },
            };
        }
        Ok(StridedView { offset: 0, strides })
    }

    pub fn offset(&self) -> (r: u64)
        ensures
            r == self.offset,
    {
        self.offset
    }

    pub fn strides(&self) -> (r: [u64; 4])
        ensures
            r == self.strides,
    {
        self.strides
    }

    /// The same addresses with the irrelevant strides zeroed, after the highest
    /// address is checked against the limit and the capacity.
    fn canonical(&self, shape: &[u64], capacity_elements: u64) -> (r: Result<
        StridedView,
        PointwisePlanError,
    >)
        requires
            shape.len() <= MAX_NDIM,
            forall|d: int| 0 <= d < shape.len() ==> shape@[d] >= 1,
        ensures
            r is Ok <==> self@.fits(shape@, capacity_elements),
            r is Ok ==> r->Ok_0@ == self@.canonical(shape@),
            r is Err ==> r->Err_0 == PointwisePlanError::AddressOverflow,
    {
        let mut strides: [u64; 4] = [0u64; 4];
        let mut max_index: u64 = self.offset;
        let mut d: usize = 0;
        proof {
            assert forall|i: int| 0 <= i < 4 implies #[trigger] extent(shape@, i) >= 1 by {}
        }
        while d < shape.len()
            invariant
                d <= shape.len() <= MAX_NDIM,
                forall|i: int| 0 <= i < 4 ==> #[trigger] extent(shape@, i) >= 1,
                max_index == self.offset + span(self.strides@, shape@, d as nat),
                forall|e: int|
                    0 <= e < 4 ==> #[trigger] strides@[e] == (if e < d && extent(shape@, e) > 1 {
                        self.strides@[e]
                    } else {
                        0
                    }),
            decreases shape.len() - d,
        {
            let n: u64 = shape[d];
            proof {
                assert(extent(shape@, d as int) == n);
                lemma_span_monotone(self.strides@, shape@, (d + 1) as nat, 4);
                lemma_span_monotone(self.strides@, shape@, d as nat, (d + 1) as nat);
            }
            if n > 1 {
                strides[d] = self.strides[d];
                let reach: u64 = match (n - 1).checked_mul(self.strides[d]) {
                    Some(t) => t,
                    None => return Err(PointwisePlanError::AddressOverflow),
                };
                max_index = match max_index.checked_add(reach) {
                    Some(t) => t,
                    None => return Err(PointwisePlanError::AddressOverflow),
                };
            } else {
                assert((n - 1) * self.strides@[d as int] == 0) by (nonlinear_arith)
                    requires
                        n == 1,
                ;
            }
            d += 1;
        }
        proof {
            lemma_span_padding(self.strides@, shape@, d as nat);
        }
        if max_index >= ADDRESS_LIMIT || max_index >= capacity_elements {
            return Err(PointwisePlanError::AddressOverflow);
        }
        let out = StridedView { offset: self.offset, strides };
        proof {
            assert(out@.strides =~= self@.canonical(shape@).strides);
        }
        Ok(out)
    }

    /// What lies inside dimension `d`.
    fn inner(&self, shape: &[u64], d: usize) -> (r: u64)
        requires
            d < shape.len() <= MAX_NDIM,
            forall|i: int| 0 <= i < 4 ==> #[trigger] extent(shape@, i) >= 1,
            span(self.strides@, shape@, 4) < ADDRESS_LIMIT,
        ensures
            r == inner_span(self.strides@, shape@, d as int, 4),
            r < ADDRESS_LIMIT,
    {
        let mut sum: u64 = 0;
        let mut e: usize = 0;
        while e < shape.len()
            invariant
                e <= shape.len() <= MAX_NDIM,
                d < shape.len(),
                forall|i: int| 0 <= i < 4 ==> #[trigger] extent(shape@, i) >= 1,
                span(self.strides@, shape@, 4) < ADDRESS_LIMIT,
                sum == inner_span(self.strides@, shape@, d as int, e as nat),
                sum < ADDRESS_LIMIT,
            decreases shape.len() - e,
        {
            proof {
                assert(extent(shape@, e as int) >= 1);
                lemma_span_bounds(self.strides@, shape@, d as int, (e + 1) as nat);
                lemma_span_bounds(self.strides@, shape@, d as int, e as nat);
                lemma_span_monotone(self.strides@, shape@, (e + 1) as nat, 4);
            }
            if e != d && self.strides[e] <= self.strides[d] {
                sum = sum + (shape[e] - 1) * self.strides[e];
            }
            e += 1;
        }
        proof {
            lemma_inner_padding(self.strides@, shape@, d as int, e as nat);
        }
        sum
    }

    /// Whether the strides nest, so that every coordinate reaches an address of
    /// its own.
    fn addresses_are_distinct(&self, shape: &[u64]) -> (r: bool)
        requires
            shape.len() <= MAX_NDIM,
            forall|i: int| 0 <= i < 4 ==> #[trigger] extent(shape@, i) >= 1,
            self@.last_address(shape@) < ADDRESS_LIMIT,
        ensures
            r == nested(self.strides@, shape@),
    {
        let mut d: usize = 0;
        while d < shape.len()
            invariant
                d <= shape.len() <= MAX_NDIM,
                forall|i: int| 0 <= i < 4 ==> #[trigger] extent(shape@, i) >= 1,
                self@.last_address(shape@) < ADDRESS_LIMIT,
                forall|e: int|
                    0 <= e < d && #[trigger] extent(shape@, e) > 1 ==> self.strides@[e] >= 1
                        + inner_span(self.strides@, shape@, e, 4),
            decreases shape.len() - d,
        {
            if shape[d] > 1 {
                let inside: u64 = self.inner(shape, d);
                if self.strides[d] < 1 + inside {
                    proof {
                        assert(extent(shape@, d as int) > 1);
                    }
                    return false;
                }
            }
            d += 1;
        }
        true
    }

    /// Whether two views hold the same offset and strides.
    fn same(&self, other: &StridedView) -> (r: bool)
        ensures
            r == (self@ == other@),
    {
        let mut d: usize = 0;
        while d < 4
            invariant
                d <= 4,
                forall|e: int| 0 <= e < d ==> self.strides@[e] == other.strides@[e],
            decreases 4 - d,
        {
            if self.strides[d] != other.strides[d] {
                return false;
            }
            d += 1;
        }
        proof {
            assert(self.strides@ =~= other.strides@);
        }
        self.offset == other.offset
    }
}

proof fn lemma_span_padding(strides: Seq<u64>, shape: Seq<u64>, d: nat)
    requires
        shape.len() <= d <= 4,
    ensures
        span(strides, shape, 4) == span(strides, shape, d),
    decreases 4 - d,
{
    if d < 4 {
        lemma_span_padding(strides, shape, d + 1);
        assert((extent(shape, d as int) - 1) * strides[d as int] == 0) by (nonlinear_arith)
            requires
                extent(shape, d as int) == 1,
        ;
    }
}

proof fn lemma_inner_padding(strides: Seq<u64>, shape: Seq<u64>, d: int, k: nat)
    requires
        shape.len() <= k <= 4,
    ensures
        inner_span(strides, shape, d, 4) == inner_span(strides, shape, d, k),
    decreases 4 - k,
{
    if k < 4 {
        lemma_inner_padding(strides, shape, d, k + 1);
        assert((extent(shape, k as int) - 1) * strides[k as int] == 0) by (nonlinear_arith)
            requires
                extent(shape, k as int) == 1,
        ;
    }
}

/// The storage an operand is bound to: an identity that is equal exactly when
/// two operands share one allocation, and that allocation's capacity in
/// elements.
#[derive(Clone, Copy, Debug, PartialEq, Eq, Structural)]
pub struct Storage {
    pub identity: u64,
    pub capacity_elements: u64,
}

impl Storage {
    pub fn new(identity: u64, capacity_elements: u64) -> (r: Self)
        ensures
            r == (Storage { identity, capacity_elements }),
    {
        Storage { identity, capacity_elements }
    }

    pub fn identity(&self) -> (r: u64)
        ensures
            r == self.identity,
    {
        self.identity
    }

    pub fn capacity_elements(&self) -> (r: u64)
        ensures
            r == self.capacity_elements,
    {
        self.capacity_elements
    }
}

/// The two scalar words of the block, `a` and `b`, as their binary32 bits, and
/// whether `b` stands for `y`.
#[derive(Clone, Copy, Debug, PartialEq, Eq, Structural)]
pub struct Scalars {
    pub a_bits: u32,
    pub b_bits: u32,
    pub y_is_scalar: bool,
}

/// The bits of negative infinity.
pub const NEG_INFINITY_BITS: u32 = 0xff80_0000;

/// The bits of positive infinity.
pub const INFINITY_BITS: u32 = 0x7f80_0000;

impl Scalars {
    /// `a` alone; `b` is zero and `y` comes from its buffer.
    pub fn new(a: u32) -> (r: Self)
        ensures
            r == (Scalars { a_bits: a, b_bits: 0, y_is_scalar: false }),
    {
        Scalars::from_words(a, 0, false)
    }

    /// `a`, and the scalar `y` in `b`.
    pub fn with_scalar_y(a: u32, y: u32) -> (r: Self)
        ensures
            r == (Scalars { a_bits: a, b_bits: y, y_is_scalar: true }),
    {
        Scalars::from_words(a, y, true)
    }

    /// Both words, with `y` from its buffer.
    pub fn pair(a: u32, b: u32) -> (r: Self)
        ensures
            r == (Scalars { a_bits: a, b_bits: b, y_is_scalar: false }),
    {
        Scalars::from_words(a, b, false)
    }

    /// The bounds of `Clamp`; an absent bound is the infinity that never binds.
    pub fn clamp(low: Option<u32>, high: Option<u32>) -> (r: Self)
        ensures
            r.a_bits == (match low {
                Some(v) => v,
                None => NEG_INFINITY_BITS,
            }),
            r.b_bits == (match high {
                Some(v) => v,
                None => INFINITY_BITS,
            }),
            !r.y_is_scalar,
    {
        let low: u32 = match low {
            Some(value) => value,
            None => NEG_INFINITY_BITS,
        };
        let high: u32 = match high {
            Some(value) => value,
            None => INFINITY_BITS,
        };
        Scalars::pair(low, high)
    }

    /// The start and step of `Iota`.
    pub fn iota(start: u32, step: u32) -> (r: Self)
        ensures
            r == (Scalars { a_bits: start, b_bits: step, y_is_scalar: false }),
    {
        Scalars::pair(start, step)
    }

    /// The diagonal of `Triu`, as a signed value in the `b` word.
    pub fn triu(diagonal: i32) -> (r: Self)
        ensures
            r == (Scalars { a_bits: 0, b_bits: signed_word(diagonal), y_is_scalar: false }),
    {
        Scalars::from_words(0, word_of_signed(diagonal), false)
    }

    fn from_words(a_bits: u32, b_bits: u32, y_is_scalar: bool) -> (r: Self)
        ensures
            r == (Scalars { a_bits, b_bits, y_is_scalar }),
    {
        Scalars { a_bits, b_bits, y_is_scalar }
    }

    pub fn a(&self) -> (r: u32)
        ensures
            r == self.a_bits,
    {
        self.a_bits
    }

    /// The `b` word: the scalar `y`, the upper bound, the step.
    pub fn b(&self) -> (r: u32)
        ensures
            r == self.b_bits,
    {
        self.b_bits
    }

    /// The `b` word as `Triu` reads it.
    pub fn diagonal(&self) -> (r: i32)
        ensures
            signed_word(r) == self.b_bits,
    {
        if self.b_bits < 0x8000_0000 {
            self.b_bits as i32
        } else {
            -((u32::MAX - self.b_bits) as i32) - 1
        }
    }

    /// The scalar `y`, when the plan carries one.
    pub fn y(&self) -> (r: Option<u32>)
        ensures
            r == (if self.y_is_scalar {
                Some(self.b_bits)
            } else {
                None
            }),
    {
        if self.y_is_scalar {
            Some(self.b())
        } else {
            None
        }
    }

    pub open spec fn flag_word(self) -> u32 {
        if self.y_is_scalar {
            FLAG_Y_SCALAR
        } else {
            0
        }
    }

    fn flags(&self) -> (r: u32)
        ensures
            r == self.flag_word(),
    {
        if self.y_is_scalar {
            FLAG_Y_SCALAR
        } else {
            0
        }
    }
}

/// A diagonal is read back as it was written.
pub proof fn law_triu_diagonal_round_trip(d: i32, e: i32)
    requires
        signed_word(d) == signed_word(e),
    ensures
        d == e,
{
}

/// What a `PointwisePlan` holds: the shape padded to four dimensions and the
/// four canonical views.
#[verifier::ext_equal]
pub ghost struct PointwiseModel {
    pub op: PointwiseOp,
    pub ndim: u32,
    pub n: u32,
    pub shape: Seq<u32>,
    pub views: Seq<StridedModel>,
    pub storage: Seq<Storage>,
    pub scalars: Scalars,
    pub storage_flags: u32,
}

/// The plan of a request, or the first reason to refuse it.
pub open spec fn planned(
    op: PointwiseOp,
    shape: Seq<u64>,
    views: Seq<StridedModel>,
    scalars: Scalars,
    storage: Seq<Storage>,
    storage_flags: u32,
) -> Result<PointwiseModel, PointwisePlanError> {
    let out = views[3].canonical(shape);
    if storage_flags & !60u32 != 0 {
        Err(PointwisePlanError::FlagsOutOfRange)
    } else if shape.len() > MAX_NDIM {
        Err(PointwisePlanError::NdimOutOfRange)
    } else if op is Triu && shape.len() < 2 {
        Err(PointwisePlanError::TriuNeedsTwoDimensions)
    } else if shape.contains(0) {
        Err(PointwisePlanError::ZeroElements)
    } else if exists|k: int|
        0 <= k < 4 && !#[trigger] views[k].fits(shape, storage[k].capacity_elements) {
        Err(PointwisePlanError::AddressOverflow)
    } else if !(op is Fill) && !nested(out.strides, shape) {
        Err(PointwisePlanError::OutputSelfOverlap)
    } else if exists|k: int|
        0 <= k < 3 && storage[k].identity == storage[3].identity
            && #[trigger] views[k].canonical(shape) != out {
        Err(PointwisePlanError::OutputOverlapsInput)
    } else if elements(shape) > u32::MAX {
        Err(PointwisePlanError::AddressOverflow)
    } else {
        Ok(
            PointwiseModel {
                op,
                ndim: shape.len() as u32,
                n: elements(shape) as u32,
                shape: Seq::new(4, |d: int| extent(shape, d) as u32),
                views: Seq::new(4, |k: int| views[k].canonical(shape)),
                storage,
                scalars,
                storage_flags,
            },
        )
    }
}

impl PointwiseModel {
    /// The shape without its padding.
    pub open spec fn dims(self) -> Seq<u64> {
        Seq::new(self.ndim as nat, |d: int| self.shape[d] as u64)
    }

    /// The plan is the one its own fields ask for.
    pub open spec fn valid(self) -> bool {
        &&& self.ndim <= MAX_NDIM
        &&& self.views.len() == 4
        &&& self.storage.len() == 4
        &&& forall|k: int| 0 <= k < 4 ==> (#[trigger] self.views[k]).strides.len() == 4
        &&& planned(
            self.op,
            self.dims(),
            self.views,
            self.scalars,
            self.storage,
            self.storage_flags,
        ) == Ok::<PointwiseModel, PointwisePlanError>(self)
    }

    pub open spec fn flags(self) -> u32 {
        self.scalars.flag_word() | self.storage_flags
    }

    pub open spec fn groups(self) -> Seq<u32> {
        seq![ceil_div(self.n as int, ELEMENTS_PER_GROUP as int) as u32, 1u32, 1u32]
    }

    /// The thirty words of the push block.
    pub open spec fn push_words(self) -> Seq<u32> {
        seq![self.op.word(), self.ndim, self.n, self.flags()] + self.shape
            + self.views[0].push_words() + self.views[1].push_words() + self.views[2].push_words()
            + self.views[3].push_words() + seq![self.scalars.a_bits, self.scalars.b_bits]
    }
}

/// Word `i` of a block.
pub open spec fn block_word(bytes: Seq<u8>, i: int) -> u32 {
    word_at(bytes, i) as u32
}

/// The view a block carries for operand `k`.
pub open spec fn block_view(bytes: Seq<u8>, k: int) -> StridedModel {
    StridedModel {
        offset: block_word(bytes, 12 + 5 * k) as u64,
        strides: Seq::new(4, |d: int| block_word(bytes, 8 + 5 * k + d) as u64),
    }
}

/// The plan a push block asks for, or the first reason to refuse it.
pub open spec fn decoded(bytes: Seq<u8>, storage: Seq<Storage>) -> Result<
    PointwiseModel,
    PointwisePlanError,
> {
    let op = PointwiseOp::decode(block_word(bytes, 0));
    let ndim = block_word(bytes, 1);
    let flags = block_word(bytes, 3);
    if op is None {
        Err(PointwisePlanError::OperationOutOfRange)
    } else if ndim > MAX_NDIM {
        Err(PointwisePlanError::NdimOutOfRange)
    } else if flags & !61u32 != 0 {
        Err(PointwisePlanError::FlagsOutOfRange)
    } else {
        let plan = planned(
            op->0,
            Seq::new(ndim as nat, |d: int| block_word(bytes, 4 + d) as u64),
            Seq::new(4, |k: int| block_view(bytes, k)),
            Scalars {
                a_bits: block_word(bytes, 28),
                b_bits: block_word(bytes, 29),
                y_is_scalar: flags & 1u32 != 0,
            },
            storage,
            storage_flags_of(flags),
        );
        match plan {
            Err(e) => Err(e),
            Ok(p) => if p.n != block_word(bytes, 2) {
                Err(PointwisePlanError::ElementCountMismatch)
            } else {
                Ok(p)
            },
        }
    }
}

/// A plan is free of races: but for a fill, which writes one constant, no
/// address is written for two elements, and an input that shares the output's
/// storage is read only where the same element is written.
pub proof fn law_plan_is_free_of_races(p: PointwiseModel, k: int, c1: Seq<int>, c2: Seq<int>)
    requires
        p.valid(),
        !(p.op is Fill),
        0 <= k < 4,
        p.storage[k].identity == p.storage[3].identity,
        coordinate(p.dims(), c1),
        coordinate(p.dims(), c2),
        p.views[k].address(c1) == p.views[3].address(c2),
    ensures
        c1 == c2,
{
    let dims = p.dims();
    assert(p.views[3] == p.views[3].canonical(dims));
    assert(p.views[k] == p.views[k].canonical(dims));
    law_nested_addresses_are_distinct(p.views[3], dims, c1, c2);
}

/// Every element that a plan addresses lies inside its storage.
pub proof fn law_plan_stays_inside_its_storage(p: PointwiseModel, k: int, c: Seq<int>)
    requires
        p.valid(),
        0 <= k < 4,
        coordinate(p.dims(), c),
    ensures
        0 <= p.views[k].address(c) < p.storage[k].capacity_elements,
        p.views[k].address(c) < ADDRESS_LIMIT,
{
    assert(p.views[k].fits(p.dims(), p.storage[k].capacity_elements));
    law_view_stays_inside_its_storage(
        p.views[k],
        p.dims(),
        p.storage[k].capacity_elements,
        c,
    );
}

/// The workgroups cover every element, and none lies wholly beyond them.
pub proof fn law_grid_covers_every_element(p: PointwiseModel)
    requires
        p.n > 0,
    ensures
        p.groups()[0] * ELEMENTS_PER_GROUP >= p.n,
        (p.groups()[0] - 1) * ELEMENTS_PER_GROUP < p.n,
{
    lemma_ceil_div_covers(p.n as int, ELEMENTS_PER_GROUP as int);
}

proof fn lemma_flag_words(y: u32, storage: u32)
    requires
        y == 0 || y == 1,
        storage & !60u32 == 0,
    ensures
        (y | storage) & !61u32 == 0,
        ((y | storage) & 1u32 != 0) == (y == 1),
        (y | storage) & 60u32 == storage,
{
    assert((y | storage) & !61u32 == 0 && (((y | storage) & 1u32 != 0) == (y == 1)) && (y | storage)
        & 60u32 == storage) by (bit_vector)
        requires
            y == 0 || y == 1,
            storage & !60u32 == 0,
    ;
}

proof fn lemma_op_words(op: PointwiseOp)
    ensures
        PointwiseOp::decode(op.word()) == Some(op),
        op.word() <= LAST_OP,
{
}

/// A view whose numbers are words.
spec fn word_sized(v: StridedModel) -> bool {
    &&& v.strides.len() == 4
    &&& v.offset <= u32::MAX
    &&& forall|d: int| 0 <= d < 4 ==> #[trigger] v.strides[d] <= u32::MAX
}

proof fn lemma_push_word(p: PointwiseModel, k: int, d: int)
    requires
        p.shape.len() == 4,
        p.views.len() == 4,
        0 <= k < 4,
        0 <= d < 5,
    ensures
        p.push_words().len() == 30,
        p.push_words()[8 + 5 * k + d] == p.views[k].push_words()[d],
{
}

proof fn lemma_block_view(p: PointwiseModel, k: int)
    requires
        p.shape.len() == 4,
        p.views.len() == 4,
        0 <= k < 4,
        word_sized(p.views[k]),
    ensures
        block_view(words_bytes(p.push_words()), k) == p.views[k],
{
    let w = p.push_words();
    let v = p.views[k];
    lemma_push_word(p, k, 0);
    lemma_push_word(p, k, 1);
    lemma_push_word(p, k, 2);
    lemma_push_word(p, k, 3);
    lemma_push_word(p, k, 4);
    assert(v.push_words()[0] == v.strides[0]);
    assert(v.push_words()[1] == v.strides[1]);
    assert(v.push_words()[2] == v.strides[2]);
    assert(v.push_words()[3] == v.strides[3]);
    lemma_word_at(w, 8 + 5 * k);
    lemma_word_at(w, 8 + 5 * k + 1);
    lemma_word_at(w, 8 + 5 * k + 2);
    lemma_word_at(w, 8 + 5 * k + 3);
    lemma_word_at(w, 8 + 5 * k + 4);
    assert(block_view(words_bytes(w), k).strides =~= v.strides);
}

proof fn lemma_block_head(p: PointwiseModel)
    requires
        p.shape.len() == 4,
        p.views.len() == 4,
        p.ndim <= 4,
    ensures
        ({
            let b = words_bytes(p.push_words());
            &&& block_word(b, 0) == p.op.word()
            &&& block_word(b, 1) == p.ndim
            &&& block_word(b, 2) == p.n
            &&& block_word(b, 3) == p.flags()
            &&& block_word(b, 28) == p.scalars.a_bits
            &&& block_word(b, 29) == p.scalars.b_bits
            &&& Seq::new(p.ndim as nat, |d: int| block_word(b, 4 + d) as u64) == p.dims()
        }),
{
    let w = p.push_words();
    let b = words_bytes(w);
    assert(w.len() == 30);
    lemma_word_at(w, 0);
    lemma_word_at(w, 1);
    lemma_word_at(w, 2);
    lemma_word_at(w, 3);
    lemma_word_at(w, 28);
    lemma_word_at(w, 29);
    assert forall|d: int| 0 <= d < p.ndim implies block_word(b, 4 + d) as u64 == p.dims()[d] by {
        lemma_word_at(w, 4 + d);
        assert(w[4 + d] == p.shape[d]);
    }
    assert(Seq::new(p.ndim as nat, |d: int| block_word(b, 4 + d) as u64) =~= p.dims());
}

/// What a valid plan's refusal table rules out.
proof fn lemma_valid_plan(p: PointwiseModel)
    requires
        p.valid(),
    ensures
        p.storage_flags & !60u32 == 0,
        p.shape.len() == 4,
        forall|k: int| 0 <= k < 4 ==> #[trigger] word_sized(p.views[k]),
{
    let shape = p.dims();
    assert(p.shape.len() == 4);
    assert forall|i: int| 0 <= i < 4 implies #[trigger] extent(shape, i) >= 1 by {
        if i < shape.len() {
            assert(shape[i] != 0) by {
                assert(!shape.contains(0));
            }
        }
    }
    assert forall|k: int| 0 <= k < 4 implies #[trigger] word_sized(p.views[k]) by {
        let v = p.views[k];
        assert(v.fits(shape, p.storage[k].capacity_elements));
        lemma_small_words(v, shape);
        assert(v == v.canonical(shape));
        assert forall|d: int| 0 <= d < 4 implies #[trigger] v.strides[d] <= u32::MAX by {
            assert(v.canonical(shape).strides[d] < ADDRESS_LIMIT);
        }
    }
}

/// A plan's push block decodes, against the plan's own storage, to the plan.
pub proof fn law_push_block_round_trip(p: PointwiseModel)
    requires
        p.valid(),
    ensures
        decoded(words_bytes(p.push_words()), p.storage) == Ok::<PointwiseModel, PointwisePlanError>(
            p,
        ),
{
    let b = words_bytes(p.push_words());
    lemma_valid_plan(p);
    lemma_block_head(p);
    lemma_op_words(p.op);
    lemma_flag_words(p.scalars.flag_word(), p.storage_flags);
    assert forall|k: int| 0 <= k < 4 implies block_view(b, k) == p.views[k] by {
        assert(word_sized(p.views[k]));
        lemma_block_view(p, k);
    }
    assert(Seq::new(4, |k: int| block_view(b, k)) =~= p.views);
    assert(p.scalars == (Scalars {
        a_bits: block_word(b, 28),
        b_bits: block_word(b, 29),
        y_is_scalar: block_word(b, 3) & 1u32 != 0,
    }));
}

/// The offset and the contributing strides of a view that fits are words.
proof fn lemma_small_words(v: StridedModel, shape: Seq<u64>)
    requires
        forall|i: int| 0 <= i < 4 ==> #[trigger] extent(shape, i) >= 1,
        v.last_address(shape) < ADDRESS_LIMIT,
    ensures
        v.offset < ADDRESS_LIMIT,
        forall|d: int|
            0 <= d < 4 ==> #[trigger] v.canonical(shape).strides[d] < ADDRESS_LIMIT,
{
    lemma_span_bounds(v.strides, shape, 0, 4);
    assert forall|d: int| 0 <= d < 4 implies #[trigger] v.canonical(shape).strides[d]
        < ADDRESS_LIMIT by {
        if extent(shape, d) > 1 {
            lemma_span_monotone(v.strides, shape, (d + 1) as nat, 4);
            lemma_span_monotone(v.strides, shape, d as nat, d as nat);
            assert(v.strides[d] <= (extent(shape, d) - 1) * v.strides[d]) by (nonlinear_arith)
                requires
                    extent(shape, d) - 1 >= 1,
                    v.strides[d] >= 0,
            ;
        }
    }
}

/// Planning a plan's own canonical fields gives the plan again.
proof fn lemma_planned_is_valid(
    op: PointwiseOp,
    shape: Seq<u64>,
    views: Seq<StridedModel>,
    scalars: Scalars,
    storage: Seq<Storage>,
    storage_flags: u32,
)
    requires
        views.len() == 4,
        storage.len() == 4,
        forall|k: int| 0 <= k < 4 ==> (#[trigger] views[k]).strides.len() == 4,
        planned(op, shape, views, scalars, storage, storage_flags) is Ok,
    ensures
        planned(op, shape, views, scalars, storage, storage_flags)->Ok_0.valid(),
{
    let p = planned(op, shape, views, scalars, storage, storage_flags)->Ok_0;
    assert forall|i: int| 0 <= i < 4 implies #[trigger] extent(shape, i) >= 1 by {
        if i < shape.len() {
            assert(shape[i] != 0) by {
                assert(!shape.contains(0));
            }
        }
    }
    lemma_extent_words(shape);
    assert(p.dims() =~= shape) by {
        assert forall|d: int| 0 <= d < shape.len() implies p.dims()[d] == shape[d] by {
            assert(p.shape[d] == extent(shape, d) as u32);
            assert(extent(shape, d) <= u32::MAX);
        }
    }
    assert forall|k: int| 0 <= k < 4 implies (#[trigger] p.views[k]).canonical(shape) == p.views[k]
        by {
        assert(p.views[k].canonical(shape).strides =~= p.views[k].strides);
    }
    assert forall|k: int| 0 <= k < 4 implies #[trigger] p.views[k].fits(
        shape,
        storage[k].capacity_elements,
    ) by {
        assert(views[k].fits(shape, storage[k].capacity_elements));
        lemma_canonical_span(views[k], shape, 4);
    }
    let again = planned(op, shape, p.views, scalars, storage, storage_flags);
    assert forall|k: int|
        0 <= k < 3 && storage[k].identity == storage[3].identity implies #[trigger] p.views[k].canonical(
        shape,
    ) == p.views[3].canonical(shape) by {
        assert(views[k].canonical(shape) == views[3].canonical(shape));
    }
    assert(again is Ok);
    assert(again->Ok_0.views =~= p.views);
    assert(again->Ok_0 =~= p);
}

/// A block that is admitted describes a valid plan on its storage.
pub proof fn law_admitted_block_is_a_valid_plan(bytes: Seq<u8>, storage: Seq<Storage>)
    requires
        storage.len() == 4,
        decoded(bytes, storage) is Ok,
    ensures
        decoded(bytes, storage)->Ok_0.valid(),
        decoded(bytes, storage)->Ok_0.storage == storage,
{
    let flags = block_word(bytes, 3);
    lemma_planned_is_valid(
        PointwiseOp::decode(block_word(bytes, 0))->0,
        Seq::new(block_word(bytes, 1) as nat, |d: int| block_word(bytes, 4 + d) as u64),
        Seq::new(4, |k: int| block_view(bytes, k)),
        Scalars {
            a_bits: block_word(bytes, 28),
            b_bits: block_word(bytes, 29),
            y_is_scalar: flags & 1u32 != 0,
        },
        storage,
        storage_flags_of(flags),
    );
}

proof fn lemma_count_bounds(shape: Seq<u64>, d: nat, k: nat)
    requires
        forall|i: int| 0 <= i < 4 ==> #[trigger] extent(shape, i) >= 1,
        d <= k <= 4,
    ensures
        1 <= count(shape, d) <= count(shape, k),
    decreases k,
{
    if k > 0 {
        if d == k {
            lemma_count_bounds(shape, (k - 1) as nat, (k - 1) as nat);
        } else {
            lemma_count_bounds(shape, d, (k - 1) as nat);
        }
        assert(extent(shape, k - 1) >= 1);
        let c = count(shape, (k - 1) as nat);
        assert(c <= c * extent(shape, k - 1)) by (nonlinear_arith)
            requires
                c >= 1,
                extent(shape, k - 1) >= 1,
        ;
    }
}

/// Where the element count is a word, so is every extent.
proof fn lemma_extent_words(shape: Seq<u64>)
    requires
        forall|i: int| 0 <= i < 4 ==> #[trigger] extent(shape, i) >= 1,
        elements(shape) <= u32::MAX,
    ensures
        forall|d: int| 0 <= d < 4 ==> #[trigger] extent(shape, d) <= u32::MAX,
{
    assert forall|d: int| 0 <= d < 4 implies #[trigger] extent(shape, d) <= u32::MAX by {
        lemma_count_bounds(shape, (d + 1) as nat, 4);
        lemma_count_bounds(shape, d as nat, d as nat);
        let c = count(shape, d as nat);
        assert(extent(shape, d) <= c * extent(shape, d)) by (nonlinear_arith)
            requires
                c >= 1,
                extent(shape, d) >= 1,
        ;
    }
}

proof fn lemma_count_padding(shape: Seq<u64>, d: nat)
    requires
        shape.len() <= d <= 4,
    ensures
        elements(shape) == count(shape, d),
    decreases 4 - d,
{
    if d < 4 {
        lemma_count_padding(shape, d + 1);
        let c = count(shape, d);
        assert(c * extent(shape, d as int) == c) by (nonlinear_arith)
            requires
                extent(shape, d as int) == 1,
        ;
    }
}

/// The elements of a shape, where they are counted by a word.
fn element_count(shape: &[u64]) -> (r: Option<u32>)
    requires
        shape.len() <= MAX_NDIM,
        forall|i: int| 0 <= i < 4 ==> #[trigger] extent(shape@, i) >= 1,
    ensures
        r is Some <==> elements(shape@) <= u32::MAX,
        r is Some ==> r->0 == elements(shape@),
{
    let mut n: u64 = 1;
    let mut d: usize = 0;
    while d < shape.len()
        invariant
            d <= shape.len() <= MAX_NDIM,
            forall|i: int| 0 <= i < 4 ==> #[trigger] extent(shape@, i) >= 1,
            n == count(shape@, d as nat),
        decreases shape.len() - d,
    {
        proof {
            lemma_count_bounds(shape@, (d + 1) as nat, 4);
            assert(extent(shape@, d as int) == shape@[d as int]);
        }
        n = match n.checked_mul(shape[d]) {
            Some(t) => t,
            None => return None,
        };
        d += 1;
    }
    proof {
        lemma_count_padding(shape@, d as nat);
    }
    if n > u32::MAX as u64 {
        None
    } else {
        Some(n as u32)
    }
}

fn has_zero(shape: &[u64]) -> (r: bool)
    ensures
        r == shape@.contains(0),
{
    let mut d: usize = 0;
    while d < shape.len()
        invariant
            d <= shape.len(),
            forall|e: int| 0 <= e < d ==> shape@[e] != 0,
        decreases shape.len() - d,
    {
        if shape[d] == 0 {
            proof {
                assert(shape@[d as int] == 0);
            }
            return true;
        }
        d += 1;
    }
    false
}

/// Whether an input shares the output's storage through another view.
fn input_overlaps(views: &[StridedView; 4], storage: &[Storage; 4]) -> (r: bool)
    ensures
        r == exists|k: int|
            0 <= k < 3 && storage@[k].identity == storage@[3].identity
                && #[trigger] views@[k]@ != views@[3]@,
{
    let mut k: usize = 0;
    while k < 3
        invariant
            k <= 3,
            forall|j: int|
                0 <= j < k && storage@[j].identity == storage@[3].identity
                    ==> #[trigger] views@[j]@ == views@[3]@,
        decreases 3 - k,
    {
        if storage[k].identity == storage[3].identity && !views[k].same(&views[3]) {
            proof {
                assert(views@[k as int]@ != views@[3]@);
            }
            return true;
        }
        k += 1;
    }
    false
}

/// Geometry, aliasing verdict and dispatch metadata for one four-buffer
/// pointwise operation.
#[derive(Clone, Copy, Debug, PartialEq, Eq)]
pub struct PointwisePlan {
    op: PointwiseOp,
    ndim: u32,
    n: u32,
    shape: [u32; 4],
    views: [StridedView; 4],
    storage: [Storage; 4],
    scalars: Scalars,
    storage_flags: u32,
    dispatch_groups: [u32; 3],
}

impl PointwisePlan {
    /// What the plan holds.
    pub closed spec fn model(&self) -> PointwiseModel {
        PointwiseModel {
            op: self.op,
            ndim: self.ndim,
            n: self.n,
            shape: self.shape@,
            views: Seq::new(4, |k: int| self.views@[k]@),
            storage: self.storage@,
            scalars: self.scalars,
            storage_flags: self.storage_flags,
        }
    }
}

/// The models of four views.
pub open spec fn models(views: Seq<StridedView>) -> Seq<StridedModel> {
    Seq::new(4, |k: int| views[k]@)
}

impl PointwisePlan {
    #[verifier::type_invariant]
    spec fn admitted(self) -> bool {
        self.model().valid() && self.dispatch_groups@ == self.model().groups()
    }

    /// Plan an operation over four-byte storage. `shape` is the output's
    /// row-major shape; an empty shape is one element. An input may share the
    /// output's storage only with a view that addresses exactly the output's
    /// elements.
    pub fn new(
        op: PointwiseOp,
        shape: &[u64],
        views: [StridedView; 4],
        scalars: Scalars,
        storage: [Storage; 4],
    ) -> (r: Result<Self, PointwisePlanError>)
        ensures
            match r {
                Ok(p) => Ok(p.model()),
                Err(e) => Err(e),
            } == planned(op, shape@, models(views@), scalars, storage@, 0),
            r is Ok ==> r->Ok_0.model().valid(),
    {
        PointwisePlan::new_with_storage_flags(op, shape, views, scalars, storage, 0)
    }

    /// `new`, with the storage bits a decoded block carried.
    pub fn new_with_storage_flags(
        op: PointwiseOp,
        shape: &[u64],
        views: [StridedView; 4],
        scalars: Scalars,
        storage: [Storage; 4],
        storage_flags: u32,
    ) -> (r: Result<Self, PointwisePlanError>)
        ensures
            match r {
                Ok(p) => Ok(p.model()),
                Err(e) => Err(e),
            } == planned(op, shape@, models(views@), scalars, storage@, storage_flags),
            r is Ok ==> r->Ok_0.model().valid(),
    {
        let ghost asked = models(views@);
        if storage_flags & !STORAGE_FLAGS != 0 {
            return Err(PointwisePlanError::FlagsOutOfRange);
        }
        if shape.len() > MAX_NDIM {
            return Err(PointwisePlanError::NdimOutOfRange);
        }
        if op == PointwiseOp::Triu && shape.len() < 2 {
            return Err(PointwisePlanError::TriuNeedsTwoDimensions);
        }
        if has_zero(shape) {
            return Err(PointwisePlanError::ZeroElements);
        }
        proof {
            assert forall|i: int| 0 <= i < 4 implies #[trigger] extent(shape@, i) >= 1 by {
                if i < shape@.len() {
                    assert(shape@[i] != 0);
                }
            }
            assert(asked[0] == views@[0]@ && asked[1] == views@[1]@ && asked[2] == views@[2]@
                && asked[3] == views@[3]@);
        }
        let x: StridedView = match views[0].canonical(shape, storage[0].capacity_elements) {
            Ok(v) => v,
            Err(e) => {
                proof {
                    assert(!asked[0].fits(shape@, storage@[0].capacity_elements));
                }
                return Err(e);
            },
        };
        let y: StridedView = match views[1].canonical(shape, storage[1].capacity_elements) {
            Ok(v) => v,
            Err(e) => {
                proof {
                    assert(!asked[1].fits(shape@, storage@[1].capacity_elements));
                }
                return Err(e);
            },
        };
        let z: StridedView = match views[2].canonical(shape, storage[2].capacity_elements) {
            Ok(v) => v,
            Err(e) => {
                proof {
                    assert(!asked[2].fits(shape@, storage@[2].capacity_elements));
                }
                return Err(e);
            },
        };
        let output: StridedView = match views[3].canonical(shape, storage[3].capacity_elements) {
            Ok(v) => v,
            Err(e) => {
                proof {
                    assert(!asked[3].fits(shape@, storage@[3].capacity_elements));
                }
                return Err(e);
            },
        };
        let canonical: [StridedView; 4] = [x, y, z, output];
        proof {
            assert forall|k: int| 0 <= k < 4 implies #[trigger] asked[k].fits(
                shape@,
                storage@[k].capacity_elements,
            ) by {
                assert(k == 0 || k == 1 || k == 2 || k == 3);
            }
            lemma_canonical_span(views@[3]@, shape@, 4);
        }
        // two lanes writing one address race, except in a fill, where both
        // write the same constant
        if op != PointwiseOp::Fill && !output.addresses_are_distinct(shape) {
            return Err(PointwisePlanError::OutputSelfOverlap);
        }
        if input_overlaps(&canonical, &storage) {
            proof {
                let k = choose|k: int|
                    0 <= k < 3 && storage@[k].identity == storage@[3].identity
                        && #[trigger] canonical@[k]@ != canonical@[3]@;
                assert(asked[k].canonical(shape@) != asked[3].canonical(shape@));
            }
            return Err(PointwisePlanError::OutputOverlapsInput);
        }
        proof {
            assert forall|k: int|
                0 <= k < 3 && storage@[k].identity
                    == storage@[3].identity implies #[trigger] asked[k].canonical(shape@)
                == asked[3].canonical(shape@) by {
                assert(canonical@[k]@ == canonical@[3]@);
            }
        }
        let n: u32 = match element_count(shape) {
            Some(n) => n,
            None => return Err(PointwisePlanError::AddressOverflow),
        };
        proof {
            lemma_extent_words(shape@);
        }
        let mut padded: [u32; 4] = [1u32; 4];
        let mut d: usize = 0;
        while d < shape.len()
            invariant
                d <= shape.len() <= MAX_NDIM,
                forall|i: int| 0 <= i < 4 ==> #[trigger] extent(shape@, i) <= u32::MAX,
                forall|e: int|
                    0 <= e < 4 ==> #[trigger] padded@[e] == (if e < d {
                        extent(shape@, e)
                    } else {
                        1
                    }),
            decreases shape.len() - d,
        {
            proof {
                assert(extent(shape@, d as int) <= u32::MAX);
            }
            padded[d] = shape[d] as u32;
            d += 1;
        }
        let dispatch_groups: [u32; 3] = [div_ceil(n, ELEMENTS_PER_GROUP), 1, 1];
        proof {
            let model = PointwiseModel {
                op,
                ndim: shape@.len() as u32,
                n,
                shape: padded@,
                views: models(canonical@),
                storage: storage@,
                scalars,
                storage_flags,
            };
            let want = planned(op, shape@, asked, scalars, storage@, storage_flags);
            assert(want is Ok);
            assert(model.shape =~= want->Ok_0.shape);
            assert(model.views =~= want->Ok_0.views);
            assert(model == want->Ok_0);
            lemma_planned_is_valid(op, shape@, asked, scalars, storage@, storage_flags);
            assert(dispatch_groups@ =~= model.groups());
        }
        Ok(
            PointwisePlan {
                op,
                ndim: shape.len() as u32,
                n,
                shape: padded,
                views: canonical,
                storage,
                scalars,
                storage_flags,
                dispatch_groups,
            },
        )
    }

    /// Re-validate a push block against resolved storage. The block's element
    /// count must be its shape's and its flags must be known ones; shape and
    /// stride words beyond the block's dimensions are padding and are not read.
    pub fn from_push_constants(bytes: &[u8; 120], storage: [Storage; 4]) -> (r: Result<
        Self,
        PointwisePlanError,
    >)
        ensures
            match r {
                Ok(p) => Ok(p.model()),
                Err(e) => Err(e),
            } == decoded(bytes@, storage@),
            r is Ok ==> r->Ok_0.model().valid(),
    {
        let block: &[u8] = bytes;
        let op: PointwiseOp = match PointwiseOp::try_from(read_word(block, 0)) {
            Ok(op) => op,
            Err(e) => return Err(e),
        };
        let ndim: u32 = read_word(block, 1);
        if ndim > MAX_NDIM as u32 {
            return Err(PointwisePlanError::NdimOutOfRange);
        }
        let flags: u32 = read_word(block, 3);
        if flags & !KNOWN_FLAGS != 0 {
            return Err(PointwisePlanError::FlagsOutOfRange);
        }
        let mut shape: Vec<u64> = Vec::new();
        let mut d: usize = 0;
        while d < ndim as usize
            invariant
                d <= ndim <= MAX_NDIM,
                block@ == bytes@,
                block.len() == 120,
                shape@.len() == d,
                forall|e: int| 0 <= e < d ==> shape@[e] == block_word(bytes@, 4 + e),
            decreases ndim - d,
        {
            shape.push(read_word(block, 4 + d) as u64);
            d += 1;
        }
        let views: [StridedView; 4] = [
            read_view(block, 0),
            read_view(block, 1),
            read_view(block, 2),
            read_view(block, 3),
        ];
        let scalars = Scalars::from_words(
            read_word(block, 28),
            read_word(block, 29),
            flags & FLAG_Y_SCALAR != 0,
        );
        proof {
            assert(shape@ =~= Seq::new(ndim as nat, |d: int| block_word(bytes@, 4 + d) as u64));
            assert(models(views@) =~= Seq::new(4, |k: int| block_view(bytes@, k)));
        }
        let plan: PointwisePlan = match PointwisePlan::new_with_storage_flags(
            op,
            shape.as_slice(),
            views,
            scalars,
            storage,
            flags & STORAGE_FLAGS,
        ) {
            Ok(p) => p,
            Err(e) => return Err(e),
        };
        if plan.n != read_word(block, 2) {
            return Err(PointwisePlanError::ElementCountMismatch);
        }
        Ok(plan)
    }

    pub fn op(&self) -> (r: PointwiseOp)
        ensures
            r == self.model().op,
    {
        self.op
    }

    pub fn ndim(&self) -> (r: u32)
        ensures
            r == self.model().ndim,
    {
        self.ndim
    }

    pub fn n(&self) -> (r: u32)
        ensures
            r == self.model().n,
    {
        self.n
    }

    pub fn flags(&self) -> (r: u32)
        ensures
            r == self.model().flags(),
    {
        self.scalars.flags() | self.storage_flags
    }

    /// The module index this plan's storage selects.
    pub fn storage_module(&self) -> (r: usize)
        ensures
            r == module_index(self.model().storage_flags),
            r < 16,
    {
        storage_module(self.storage_flags)
    }

    /// The shape padded to `MAX_NDIM` with extent 1.
    pub fn shape(&self) -> (r: [u32; 4])
        ensures
            r@ == self.model().shape,
    {
        self.shape
    }

    /// The operand's view as planned.
    pub fn view(&self, operand: Operand) -> (r: StridedView)
        ensures
            r@ == self.model().views[operand.slot()],
    {
        self.views[operand.index()]
    }

    pub fn storage(&self, operand: Operand) -> (r: Storage)
        ensures
            r == self.model().storage[operand.slot()],
    {
        self.storage[operand.index()]
    }

    pub fn scalars(&self) -> (r: Scalars)
        ensures
            r == self.model().scalars,
    {
        self.scalars
    }

    pub fn dispatch_groups(&self) -> (r: [u32; 3])
        ensures
            r@ == self.model().groups(),
    {
        proof {
            use_type_invariant(self);
        }
        self.dispatch_groups
    }

    /// The push block: `op, ndim, n, flags, shape[4]`, then `stride[4], offset`
    /// for `x`, `y`, `z`, `out`, then the `a` and `b` words.
    pub fn push_constants(&self) -> (r: [u8; 120])
        ensures
            r@ == words_bytes(self.model().push_words()),
    {
        proof {
            use_type_invariant(self);
        }
        let words: [u32; 30] = [
            self.op as u32,
            self.ndim,
            self.n,
            self.flags(),
            self.shape[0],
            self.shape[1],
            self.shape[2],
            self.shape[3],
            self.views[0].strides[0] as u32,
            self.views[0].strides[1] as u32,
            self.views[0].strides[2] as u32,
            self.views[0].strides[3] as u32,
            self.views[0].offset as u32,
            self.views[1].strides[0] as u32,
            self.views[1].strides[1] as u32,
            self.views[1].strides[2] as u32,
            self.views[1].strides[3] as u32,
            self.views[1].offset as u32,
            self.views[2].strides[0] as u32,
            self.views[2].strides[1] as u32,
            self.views[2].strides[2] as u32,
            self.views[2].strides[3] as u32,
            self.views[2].offset as u32,
            self.views[3].strides[0] as u32,
            self.views[3].strides[1] as u32,
            self.views[3].strides[2] as u32,
            self.views[3].strides[3] as u32,
            self.views[3].offset as u32,
            self.scalars.a_bits,
            self.scalars.b_bits,
        ];
        proof {
            assert(words@ =~= self.model().push_words());
        }
        block(words)
    }
}

/// The view a block carries for operand `k`.
fn read_view(block: &[u8], k: usize) -> (r: StridedView)
    requires
        block.len() == 120,
        k < 4,
    ensures
        r@ == block_view(block@, k as int),
{
    let base: usize = 8 + 5 * k;
    let strides: [u64; 4] = [
        read_word(block, base) as u64,
        read_word(block, base + 1) as u64,
        read_word(block, base + 2) as u64,
        read_word(block, base + 3) as u64,
    ];
    let r = StridedView::new(read_word(block, base + 4) as u64, strides);
    proof {
        assert(r@.strides =~= block_view(block@, k as int).strides);
    }
    r
}

/// The operations are numbered from 0 to 23, and no other word names one.
pub proof fn law_operations_are_numbered(op: PointwiseOp, word: u32)
    ensures
        op is AddScaled <==> op.word() == 0,
        op is SubScaled <==> op.word() == 1,
        op is Mul <==> op.word() == 2,
        op is Div <==> op.word() == 3,
        op is Fill <==> op.word() == 4,
        op is Copy <==> op.word() == 5,
        op is Reciprocal <==> op.word() == 6,
        op is Abs <==> op.word() == 7,
        op is Sqrt <==> op.word() == 8,
        op is Rsqrt <==> op.word() == 9,
        op is Neg <==> op.word() == 10,
        op is Pow <==> op.word() == 11,
        op is PowScalarBase <==> op.word() == 12,
        op is Clamp <==> op.word() == 13,
        op is Silu <==> op.word() == 14,
        op is Sigmoid <==> op.word() == 15,
        op is SigmoidBackward <==> op.word() == 16,
        op is Addcmul <==> op.word() == 17,
        op is Addcdiv <==> op.word() == 18,
        op is Lerp <==> op.word() == 19,
        op is Cos <==> op.word() == 20,
        op is Sin <==> op.word() == 21,
        op is Iota <==> op.word() == 22,
        op is Triu <==> op.word() == 23,
        PointwiseOp::decode(op.word()) == Some(op),
        PointwiseOp::decode(word) is Some <==> word <= 23,
        PointwiseOp::decode(word) matches Some(x) ==> x.word() == word,
{
}

/// The operands are bound in the order x, y, z, out.
pub proof fn law_operands_are_bound_in_order(o: Operand)
    ensures
        o is X <==> o.slot() == 0,
        o is Y <==> o.slot() == 1,
        o is Z <==> o.slot() == 2,
        o is Out <==> o.slot() == 3,
{
}

/// The four storage bits stand above the two scalar bits, from x to out, and
/// number the module.
pub proof fn law_storage_bits_number_the_module(flags: u32)
    ensures
        module_index(flags) == (flags / 4) % 16,
        storage_flags_of(flags) == 4 * ((flags / 4) % 16),
        flags & storage_bit(0) != 0 <==> (flags / 4) % 2 == 1,
        flags & storage_bit(1) != 0 <==> (flags / 8) % 2 == 1,
        flags & storage_bit(2) != 0 <==> (flags / 16) % 2 == 1,
        flags & storage_bit(3) != 0 <==> (flags / 32) % 2 == 1,
{
    assert((flags & 4u32 != 0 <==> (flags / 4) % 2 == 1) && (flags & 8u32 != 0 <==> (flags / 8) % 2
        == 1) && (flags & 16u32 != 0 <==> (flags / 16) % 2 == 1) && (flags & 32u32 != 0 <==> (flags
        / 32) % 2 == 1) && flags & 60u32 == 4 * ((flags / 4) % 16)) by (bit_vector);
    assert((flags / 4) % 16 == (flags / 4) % 2 + 2 * ((flags / 8) % 2) + 4 * ((flags / 16) % 2) + 8
        * ((flags / 32) % 2) && (flags / 4) % 2 <= 1 && (flags / 8) % 2 <= 1 && (flags / 16) % 2 <= 1
        && (flags / 32) % 2 <= 1) by (bit_vector);
    let (x, y) = ((flags / 4) % 2, (flags / 8) % 2);
    let (z, o) = ((flags / 16) % 2, (flags / 32) % 2);
    assert(module_index(flags) == x + 2 * y + 4 * z + 8 * o);
}

/// Addresses are counted in strides from the offset, and the last is the farthest
/// corner's.
pub proof fn law_addresses_are_counted_in_strides(v: StridedModel, shape: Seq<u64>, c: Seq<int>)
    ensures
        v.address(c) == v.offset + c[0] * v.strides[0] + c[1] * v.strides[1] + c[2] * v.strides[2]
            + c[3] * v.strides[3],
        v.last_address(shape) == v.offset + (extent(shape, 0) - 1) * v.strides[0] + (extent(shape, 1)
            - 1) * v.strides[1] + (extent(shape, 2) - 1) * v.strides[2] + (extent(shape, 3) - 1)
            * v.strides[3],
        forall|capacity: u64|
            v.fits(shape, capacity) <==> v.last_address(shape) < 2147483648 && v.last_address(shape)
                < capacity,
{
    reveal_with_fuel(displacement, 5);
    reveal_with_fuel(span, 5);
}

/// The elements of a shape are the product of its extents, one beyond its
/// dimensions, and the coordinates of one lie below them.
pub proof fn law_elements_are_the_product_of_the_extents(shape: Seq<u64>, d: int)
    requires
        0 <= d,
    ensures
        elements(shape) == extent(shape, 0) * extent(shape, 1) * extent(shape, 2) * extent(shape, 3),
        d < shape.len() ==> extent(shape, d) == shape[d],
        d >= shape.len() ==> extent(shape, d) == 1,
        d < shape.len() ==> count_from(shape, d) == shape[d] * count_from(shape, d + 1),
        d >= shape.len() ==> count_from(shape, d) == 1,
{
    reveal_with_fuel(count, 5);
    assert(count(shape, 1) == 1 * extent(shape, 0));
    if d < shape.len() {
        let inner = count_from(shape, d + 1);
        assert(inner * shape[d] == shape[d] * inner) by (nonlinear_arith);
    }
}

/// What lies inside a dimension is the reach of every other dimension with no
/// greater stride; strides nest exactly when each dimension longer than one
/// strides beyond that.
pub proof fn law_nesting_strides_over_what_lies_inside(strides: Seq<u64>, shape: Seq<u64>, d: int)
    requires
        0 <= d < 4,
    ensures
        ({
            let reach = |e: int|
                if e != d && strides[e] <= strides[d] {
                    (extent(shape, e) - 1) * strides[e]
                } else {
                    0
                };
            &&& inner_span(strides, shape, d, 4) == reach(0) + reach(1) + reach(2) + reach(3)
            &&& nested(strides, shape) && extent(shape, d) > 1 ==> strides[d] > reach(0) + reach(1)
                + reach(2) + reach(3)
        }),
        (forall|e: int|
            0 <= e < 4 && #[trigger] extent(shape, e) > 1 ==> strides[e] > inner_span(
                strides,
                shape,
                e,
                4,
            )) ==> nested(strides, shape),
{
    reveal_with_fuel(inner_span, 5);
    assert(extent(shape, d) == extent(shape, d));
}

/// A canonical view keeps its offset and the strides of the dimensions longer
/// than one, and no others.
pub proof fn law_canonical_strides_contribute(v: StridedModel, shape: Seq<u64>, d: int)
    requires
        0 <= d < 4,
    ensures
        v.canonical(shape).offset == v.offset,
        v.canonical(shape).strides.len() == 4,
        extent(shape, d) > 1 ==> v.canonical(shape).strides[d] == v.strides[d],
        extent(shape, d) <= 1 ==> v.canonical(shape).strides[d] == 0,
{
}

/// The plan of a request is that request: its operation, its shape, its scalars
/// and its storage, with every operand addressed at every element as asked.
pub proof fn law_plan_is_the_request(
    op: PointwiseOp,
    shape: Seq<u64>,
    views: Seq<StridedModel>,
    scalars: Scalars,
    storage: Seq<Storage>,
    storage_flags: u32,
    k: int,
    c: Seq<int>,
)
    requires
        planned(op, shape, views, scalars, storage, storage_flags) is Ok,
        0 <= k < 4,
        coordinate(shape, c),
    ensures
        ({
            let p = planned(op, shape, views, scalars, storage, storage_flags)->Ok_0;
            &&& p.op == op
            &&& p.ndim == shape.len()
            &&& p.n == extent(shape, 0) * extent(shape, 1) * extent(shape, 2) * extent(shape, 3)
            &&& p.shape.len() == 4 && p.shape[k] == extent(shape, k)
            &&& p.views.len() == 4 && p.views[k].address(c) == views[k].address(c)
            &&& p.storage == storage
            &&& p.scalars == scalars
            &&& p.storage_flags == storage_flags
        }),
{
    assert forall|i: int| 0 <= i < 4 implies #[trigger] extent(shape, i) >= 1 by {
        if i < shape.len() {
            assert(shape[i] != 0) by {
                assert(!shape.contains(0));
            }
        }
    }
    law_canonical_keeps_every_address(views[k], shape, c);
    law_elements_are_the_product_of_the_extents(shape, 0);
    lemma_extent_words(shape);
    lemma_count_bounds(shape, 0, 4);
}

/// A request is planned exactly when its storage bits are known, it has at most
/// four dimensions, two for a triangle, no empty one, every view stays below 2^31
/// and inside its storage, the output's strides nest unless it is filled, an input
/// that shares the output's storage addresses as the output does, and the
/// elements are counted by a word.
pub proof fn law_requests_are_planned_exactly_when_sound(
    op: PointwiseOp,
    shape: Seq<u64>,
    views: Seq<StridedModel>,
    scalars: Scalars,
    storage: Seq<Storage>,
    storage_flags: u32,
)
    ensures
        ({
            let r = planned(op, shape, views, scalars, storage, storage_flags);
            let known = storage_flags % 4 == 0 && storage_flags < 64;
            let flat = shape.len() <= 4;
            let triangular = op is Triu ==> shape.len() >= 2;
            let full = forall|d: int| 0 <= d < shape.len() ==> #[trigger] shape[d] != 0;
            let inside = forall|k: int|
                0 <= k < 4 ==> (#[trigger] views[k]).last_address(shape) < 2147483648
                    && views[k].last_address(shape) < storage[k].capacity_elements;
            let apart = op is Fill || nested(views[3].canonical(shape).strides, shape);
            let shared = forall|k: int|
                0 <= k < 3 && storage[k].identity == storage[3].identity ==> (
                #[trigger] views[k]).canonical(shape) == views[3].canonical(shape);
            let counted = elements(shape) <= 0xffff_ffff;
            &&& r is Ok <==> known && flat && triangular && full && inside && apart && shared
                && counted
            &&& r == Err::<PointwiseModel, PointwisePlanError>(PointwisePlanError::FlagsOutOfRange)
                <==> !known
            &&& r == Err::<PointwiseModel, PointwisePlanError>(PointwisePlanError::NdimOutOfRange)
                <==> known && !flat
            &&& r == Err::<PointwiseModel, PointwisePlanError>(
                PointwisePlanError::TriuNeedsTwoDimensions,
            ) <==> known && flat && !triangular
            &&& r == Err::<PointwiseModel, PointwisePlanError>(PointwisePlanError::ZeroElements)
                <==> known && flat && triangular && !full
            &&& r == Err::<PointwiseModel, PointwisePlanError>(PointwisePlanError::OutputSelfOverlap)
                <==> known && flat && triangular && full && inside && !apart
            &&& r == Err::<PointwiseModel, PointwisePlanError>(
                PointwisePlanError::OutputOverlapsInput,
            ) <==> known && flat && triangular && full && inside && apart && !shared
        }),
{
    let f = storage_flags;
    assert(f & !60u32 == 0 <==> f % 4 == 0 && f < 64) by (bit_vector);
    if shape.contains(0) {
        let d = choose|d: int| 0 <= d < shape.len() && shape[d] == 0;
        assert(!(shape[d] != 0));
    } else {
        assert forall|d: int| 0 <= d < shape.len() implies #[trigger] shape[d] != 0 by {
            assert(shape.contains(shape[d]));
        }
    }
    if exists|k: int| 0 <= k < 4 && !#[trigger] views[k].fits(shape, storage[k].capacity_elements) {
        let k = choose|k: int|
            0 <= k < 4 && !#[trigger] views[k].fits(shape, storage[k].capacity_elements);
        assert(!(views[k].last_address(shape) < 2147483648 && views[k].last_address(shape)
            < storage[k].capacity_elements));
    } else {
        assert forall|k: int| 0 <= k < 4 implies (#[trigger] views[k]).last_address(shape)
            < 2147483648 && views[k].last_address(shape) < storage[k].capacity_elements by {
            assert(views[k].fits(shape, storage[k].capacity_elements));
        }
    }
    let out = views[3].canonical(shape);
    if exists|k: int|
        0 <= k < 3 && storage[k].identity == storage[3].identity
            && #[trigger] views[k].canonical(shape) != out {
        let k = choose|k: int|
            0 <= k < 3 && storage[k].identity == storage[3].identity
                && #[trigger] views[k].canonical(shape) != out;
        assert(views[k].canonical(shape) != views[3].canonical(shape));
    } else {
        assert forall|k: int|
            0 <= k < 3 && storage[k].identity == storage[3].identity implies (
        #[trigger] views[k]).canonical(shape) == views[3].canonical(shape) by {
            let own = views[k].canonical(shape);
            assert(own == out);
        }
    }
}

/// The thirty words of a plan's block, each in its place.
pub proof fn law_push_block_holds_the_plan(p: PointwiseModel)
    requires
        p.valid(),
    ensures
        ({
            let w = words_bytes(p.push_words());
            &&& w.len() == 120
            &&& word_at(w, 0) == p.op.word()
            &&& word_at(w, 1) == p.ndim
            &&& word_at(w, 2) == p.n
            &&& p.scalars.y_is_scalar ==> word_at(w, 3) == p.storage_flags + 1
            &&& !p.scalars.y_is_scalar ==> word_at(w, 3) == p.storage_flags
            &&& word_at(w, 4) == p.shape[0]
            &&& word_at(w, 5) == p.shape[1]
            &&& word_at(w, 6) == p.shape[2]
            &&& word_at(w, 7) == p.shape[3]
            &&& word_at(w, 8) == p.views[0].strides[0]
            &&& word_at(w, 9) == p.views[0].strides[1]
            &&& word_at(w, 10) == p.views[0].strides[2]
            &&& word_at(w, 11) == p.views[0].strides[3]
            &&& word_at(w, 12) == p.views[0].offset
            &&& word_at(w, 13) == p.views[1].strides[0]
            &&& word_at(w, 14) == p.views[1].strides[1]
            &&& word_at(w, 15) == p.views[1].strides[2]
            &&& word_at(w, 16) == p.views[1].strides[3]
            &&& word_at(w, 17) == p.views[1].offset
            &&& word_at(w, 18) == p.views[2].strides[0]
            &&& word_at(w, 19) == p.views[2].strides[1]
            &&& word_at(w, 20) == p.views[2].strides[2]
            &&& word_at(w, 21) == p.views[2].strides[3]
            &&& word_at(w, 22) == p.views[2].offset
            &&& word_at(w, 23) == p.views[3].strides[0]
            &&& word_at(w, 24) == p.views[3].strides[1]
            &&& word_at(w, 25) == p.views[3].strides[2]
            &&& word_at(w, 26) == p.views[3].strides[3]
            &&& word_at(w, 27) == p.views[3].offset
            &&& word_at(w, 28) == p.scalars.a_bits
            &&& word_at(w, 29) == p.scalars.b_bits
        }),
{
    lemma_valid_plan(p);
    let words = p.push_words();
    law_words_read_back(words);
    assert(word_sized(p.views[0]) && word_sized(p.views[1]) && word_sized(p.views[2]) && word_sized(
        p.views[3],
    ));
    assert(p.views[0].strides[0] <= u32::MAX && p.views[0].strides[1] <= u32::MAX && p.views[0].strides[2] <= u32::MAX && p.views[0].strides[3] <= u32::MAX);
    assert(p.views[1].strides[0] <= u32::MAX && p.views[1].strides[1] <= u32::MAX && p.views[1].strides[2] <= u32::MAX && p.views[1].strides[3] <= u32::MAX);
    assert(p.views[2].strides[0] <= u32::MAX && p.views[2].strides[1] <= u32::MAX && p.views[2].strides[2] <= u32::MAX && p.views[2].strides[3] <= u32::MAX);
    assert(p.views[3].strides[0] <= u32::MAX && p.views[3].strides[1] <= u32::MAX && p.views[3].strides[2] <= u32::MAX && p.views[3].strides[3] <= u32::MAX);
    let (y, s) = (p.scalars.flag_word(), p.storage_flags);
    assert(y | s == y + s) by (bit_vector)
        requires
            y == 0 || y == 1,
            s & !60u32 == 0,
    ;
    lemma_push_block_views(p);
}

/// Where each view's five words stand.
proof fn lemma_push_block_views(p: PointwiseModel)
    requires
        p.shape.len() == 4,
        p.views.len() == 4,
    ensures
        ({
            let w = p.push_words();
            &&& w.len() == 30
            &&& w[8] == p.views[0].strides[0] as u32
            &&& w[9] == p.views[0].strides[1] as u32
            &&& w[10] == p.views[0].strides[2] as u32
            &&& w[11] == p.views[0].strides[3] as u32
            &&& w[12] == p.views[0].offset as u32
            &&& w[13] == p.views[1].strides[0] as u32
            &&& w[14] == p.views[1].strides[1] as u32
            &&& w[15] == p.views[1].strides[2] as u32
            &&& w[16] == p.views[1].strides[3] as u32
            &&& w[17] == p.views[1].offset as u32
            &&& w[18] == p.views[2].strides[0] as u32
            &&& w[19] == p.views[2].strides[1] as u32
            &&& w[20] == p.views[2].strides[2] as u32
            &&& w[21] == p.views[2].strides[3] as u32
            &&& w[22] == p.views[2].offset as u32
            &&& w[23] == p.views[3].strides[0] as u32
            &&& w[24] == p.views[3].strides[1] as u32
            &&& w[25] == p.views[3].strides[2] as u32
            &&& w[26] == p.views[3].strides[3] as u32
            &&& w[27] == p.views[3].offset as u32
        }),
{
}

/// A kernel that computes an operand's address from its five words, the strides
/// at `8 + 5 * k` and the offset at `12 + 5 * k`, reaches each element where the
/// plan has it.
pub proof fn law_push_block_addresses_the_views(p: PointwiseModel, c: Seq<int>)
    requires
        p.valid(),
        coordinate(p.dims(), c),
    ensures
        ({
            let w = words_bytes(p.push_words());
            &&& word_at(w, 12) + c[0] * word_at(w, 8) + c[1] * word_at(w, 9) + c[2] * word_at(
                w,
                10,
            ) + c[3] * word_at(w, 11) == p.views[0].address(c)
            &&& word_at(w, 17) + c[0] * word_at(w, 13) + c[1] * word_at(w, 14) + c[2] * word_at(
                w,
                15,
            ) + c[3] * word_at(w, 16) == p.views[1].address(c)
            &&& word_at(w, 22) + c[0] * word_at(w, 18) + c[1] * word_at(w, 19) + c[2] * word_at(
                w,
                20,
            ) + c[3] * word_at(w, 21) == p.views[2].address(c)
            &&& word_at(w, 27) + c[0] * word_at(w, 23) + c[1] * word_at(w, 24) + c[2] * word_at(
                w,
                25,
            ) + c[3] * word_at(w, 26) == p.views[3].address(c)
        }),
{
    law_push_block_holds_the_plan(p);
    law_addresses_are_counted_in_strides(p.views[0], p.dims(), c);
    law_addresses_are_counted_in_strides(p.views[1], p.dims(), c);
    law_addresses_are_counted_in_strides(p.views[2], p.dims(), c);
    law_addresses_are_counted_in_strides(p.views[3], p.dims(), c);
}

/// An admitted block is read as it was written: its operation, dimensions, count,
/// flags, extents and scalars are the plan's, and each operand is addressed by
/// its own five words.
pub proof fn law_admitted_block_is_read_word_by_word(
    bytes: Seq<u8>,
    storage: Seq<Storage>,
    k: int,
    c: Seq<int>,
)
    requires
        bytes.len() == 120,
        storage.len() == 4,
        decoded(bytes, storage) is Ok,
        0 <= k < 4,
        coordinate(decoded(bytes, storage)->Ok_0.dims(), c),
    ensures
        ({
            let p = decoded(bytes, storage)->Ok_0;
            &&& p.op.word() == word_at(bytes, 0)
            &&& p.ndim == word_at(bytes, 1)
            &&& p.n == word_at(bytes, 2)
            &&& p.flags() == word_at(bytes, 3)
            &&& k < p.ndim ==> p.shape[k] == word_at(bytes, 4 + k)
            &&& k >= p.ndim ==> p.shape[k] == 1
            &&& p.views[k].address(c) == word_at(bytes, 12 + 5 * k) + c[0] * word_at(bytes, 8 + 5 * k)
                + c[1] * word_at(bytes, 9 + 5 * k) + c[2] * word_at(bytes, 10 + 5 * k) + c[3]
                * word_at(bytes, 11 + 5 * k)
            &&& p.scalars.a_bits == word_at(bytes, 28)
            &&& p.scalars.b_bits == word_at(bytes, 29)
        }),
{
    assert forall|i: int| 0 <= i < 30 implies 0 <= #[trigger] word_at(bytes, i) <= u32::MAX by {
        lemma_bytes_round_trip(bytes.subrange(4 * i, 4 * i + 4));
    }
    let p = decoded(bytes, storage)->Ok_0;
    let ndim = block_word(bytes, 1);
    let flags = block_word(bytes, 3);
    assert(0 <= word_at(bytes, 0) && 0 <= word_at(bytes, 1) && 0 <= word_at(bytes, 2) && 0 <= word_at(
        bytes,
        3,
    ) && 0 <= word_at(bytes, 28) && 0 <= word_at(bytes, 29));
    assert(0 <= word_at(bytes, 4 + k) && 0 <= word_at(bytes, 12 + 5 * k) && 0 <= word_at(
        bytes,
        8 + 5 * k,
    ) && 0 <= word_at(bytes, 9 + 5 * k) && 0 <= word_at(bytes, 10 + 5 * k) && 0 <= word_at(
        bytes,
        11 + 5 * k,
    ));
    let shape = Seq::new(ndim as nat, |d: int| block_word(bytes, 4 + d) as u64);
    let views = Seq::new(4, |k: int| block_view(bytes, k));
    let scalars = Scalars {
        a_bits: block_word(bytes, 28),
        b_bits: block_word(bytes, 29),
        y_is_scalar: flags & 1u32 != 0,
    };
    assert forall|i: int| 0 <= i < 4 implies #[trigger] extent(shape, i) >= 1 by {
        if i < shape.len() {
            assert(shape[i] != 0) by {
                assert(!shape.contains(0));
            }
        }
    }
    lemma_extent_words(shape);
    assert(p.dims() =~= shape) by {
        assert forall|d: int| 0 <= d < shape.len() implies p.dims()[d] == shape[d] by {
            assert(p.shape[d] == extent(shape, d) as u32);
            assert(extent(shape, d) <= u32::MAX);
        }
    }
    law_operations_are_numbered(p.op, block_word(bytes, 0));
    law_canonical_keeps_every_address(views[k], shape, c);
    law_addresses_are_counted_in_strides(views[k], shape, c);
    assert(views[k].strides[0] == block_word(bytes, 8 + 5 * k + 0));
    assert(views[k].strides[1] == block_word(bytes, 8 + 5 * k + 1));
    assert(views[k].strides[2] == block_word(bytes, 8 + 5 * k + 2));
    assert(views[k].strides[3] == block_word(bytes, 8 + 5 * k + 3));
    assert(p.shape[k] == extent(shape, k) as u32);
    assert((if flags & 1u32 != 0 {
        1u32
    } else {
        0u32
    }) | (flags & 60u32) == flags) by (bit_vector)
        requires
            flags & !61u32 == 0,
    ;
}

/// The grid has a workgroup for every 1024 elements.
pub proof fn law_grid_has_a_workgroup_per_1024_elements(p: PointwiseModel)
    requires
        p.n > 0,
    ensures
        p.groups().len() == 3,
        (p.groups()[0] - 1) * 1024 < p.n <= p.groups()[0] * 1024,
        p.groups()[1] == 1 && p.groups()[2] == 1,
{
    law_grid_covers_every_element(p);
}

/// The flags are the scalar bit and the storage bits, one beside the other.
pub proof fn law_flags_are_the_scalar_and_storage_bits(p: PointwiseModel)
    requires
        p.valid(),
    ensures
        p.scalars.y_is_scalar ==> p.flags() == p.storage_flags + 1,
        !p.scalars.y_is_scalar ==> p.flags() == p.storage_flags,
        p.storage_flags % 4 == 0 && p.storage_flags < 64,
{
    lemma_valid_plan(p);
    let (y, s) = (p.scalars.flag_word(), p.storage_flags);
    assert(y | s == y + s && s % 4 == 0 && s < 64) by (bit_vector)
        requires
            y == 0 || y == 1,
            s & !60u32 == 0,
    ;
}

/// A plan has at least one element, the one at the origin.
pub proof fn lemma_origin_is_a_coordinate(p: PointwiseModel)
    requires
        p.valid(),
    ensures
        coordinate(p.dims(), seq![0int, 0int, 0int, 0int]),
        p.n > 0,
{
    let shape = p.dims();
    assert forall|i: int| 0 <= i < 4 implies #[trigger] extent(shape, i) >= 1 by {
        if i < shape.len() {
            assert(shape[i] != 0) by {
                assert(!shape.contains(0));
            }
        }
    }
    lemma_count_bounds(shape, 4, 4);
}

/// Each refusal of a plan has its own name.
pub proof fn law_plan_errors_are_named()
    ensures
        PointwisePlanError::OperationOutOfRange.text() == "pointwise-operation-out-of-range"@,
        PointwisePlanError::NdimOutOfRange.text() == "pointwise-ndim-out-of-range"@,
        PointwisePlanError::TriuNeedsTwoDimensions.text() == "pointwise-triu-needs-two-dimensions"@,
        PointwisePlanError::ZeroElements.text() == "pointwise-zero-elements"@,
        PointwisePlanError::AddressOverflow.text() == "pointwise-address-overflow"@,
        PointwisePlanError::OutputOverlapsInput.text() == "pointwise-output-overlaps-input"@,
        PointwisePlanError::OutputSelfOverlap.text() == "pointwise-output-self-overlap"@,
        PointwisePlanError::FlagsOutOfRange.text() == "pointwise-flags-out-of-range"@,
        PointwisePlanError::ElementCountMismatch.text() == "pointwise-element-count-mismatch"@,
{
}

/// Every operation reads x but the fill and the ramp; those of two operands read
/// y, and the two of three read z. None reads what it writes, and one that reads
/// an operand reads every one before it.
pub proof fn law_operations_read_their_operands(op: PointwiseOp)
    ensures
        op.reads(Operand::X) <==> op.word() != 4 && op.word() != 22,
        op.reads(Operand::Y) <==> op.word() <= 3 || op.word() == 11 || 16 <= op.word() <= 19,
        op.reads(Operand::Z) <==> op.word() == 17 || op.word() == 18,
        op.reads(Operand::Z) ==> op.reads(Operand::Y),
        op.reads(Operand::Y) ==> op.reads(Operand::X),
        !op.reads(Operand::Out),
{
}

/// The bounds that never bind are the two infinities: the largest exponent, no
/// fraction, and opposite signs.
pub proof fn law_absent_bounds_are_infinities()
    ensures
        INFINITY_BITS == 255 * 8388608,
        NEG_INFINITY_BITS == INFINITY_BITS + 2147483648,
        LAST_OP == 23,
{
}

} // verus!
