//! Plans for the fixed-order reduction of a strided FP32 view over any subset
//! of its dimensions.
//!
//! A plan checks every address the kernel will touch against the declared
//! input capacity, splits the reduced index space into fixed contiguous
//! ranges, and carries the push constants and grids of its one or two passes.
//! The order of combination is a function of the plan alone. The output is
//! dense over the kept dimensions in their original order.

use crate::arith::{ceil_div, div_ceil_u64, lemma_ceil_div_covers};
use crate::float_bits::{finite, is_finite};
use crate::words::{block, law_words_read_back, word_at, words_bytes};
use vstd::prelude::*;

verus! {

pub const MAX_RANK: usize = 6;

/// Reduced elements per split of the first pass.
pub const CHUNK: u32 = 65_536;

/// The kernel addresses elements with offsets below this bound.
pub const MAX_ADDRESS: u64 = 2_147_483_648;

pub const MAX_WORKGROUPS: u64 = 2_147_483_648;

pub const PUSH_BYTES: usize = 80;

/// The input buffer holds two-byte elements.
pub const FLAG_IN_BF16: u32 = 1;

/// The output buffer holds two-byte elements.
pub const FLAG_OUT_BF16: u32 = 2;

pub const STORAGE_FLAGS: u32 = 3;

/// A request block with its storage word.
pub const REQUEST_BYTES: usize = 84;

pub const WORKGROUP_SIZE: u32 = 256;

/// The push block of the kernel that lays the kept elements across its lanes.
pub const PUSH_BYTES_V2: usize = 96;

pub const TILE_COLS_MIN: u32 = 8;

pub const TILE_COLS_MAX: u32 = 256;

pub const NONE_DIM: u32 = u32::MAX;

/// The workgroups a device is sure to take on its second and third axis.
pub const MAX_GRID_YZ: u64 = 65_535;

pub const V2_MIN_KEPT: u64 = 64;

pub const V2_MIN_WORKGROUPS: u64 = 32;

pub const V2_MIN_KEPT_FOR_ANY_GRID: u64 = 4_096;

/// Bytes one element of a buffer occupies under a storage bit.
pub fn element_bytes(bf16: bool) -> (r: u64)
    ensures
        r == (if bf16 {
            2u64
        } else {
            4u64
        }),
{
    if bf16 {
        2
    } else {
        4
    }
}

#[derive(Clone, Copy, Debug, PartialEq, Eq, Structural)]
pub enum ReduceOp {
    Sum,
    Amax,
    SumOfSquares,
}

impl ReduceOp {
    pub open spec fn word(self) -> u32 {
        match self {
            ReduceOp::Sum => 0,
            ReduceOp::Amax => 1,
            ReduceOp::SumOfSquares => 2,
        }
    }

    /// How partial results of this operation are combined.
    pub open spec fn combined_by(self) -> ReduceOp {
        match self {
            ReduceOp::Amax => ReduceOp::Amax,
            _ => ReduceOp::Sum,
        }
    }
}

#[derive(Clone, Copy, Debug, PartialEq, Eq, Structural)]
pub enum Finish {
    NoFinish,
    Scale,
    Sqrt,
}

impl Finish {
    pub open spec fn word(self) -> u32 {
        match self {
            Finish::NoFinish => 0,
            Finish::Scale => 1,
            Finish::Sqrt => 2,
        }
    }
}

/// Which kernel a pass binds: `V1` strides the reduced elements across a
/// workgroup's lanes, `V2` lays the kept elements across them.
#[derive(Clone, Copy, Debug, PartialEq, Eq, Structural)]
pub enum ReduceKernel {
    V1,
    V2,
}

#[derive(Clone, Copy, Debug, PartialEq, Eq, Structural)]
pub enum ReducePlanError {
    RankOutOfRange,
    ZeroExtent,
    AddressOutOfRange,
    ReducedMaskInvalid,
    InvalidScale,
    TooManyWorkgroups,
    CapacityTooSmall,
    StorageFlagsOutOfRange,
}

impl ReducePlanError {
    pub open spec fn text(self) -> Seq<char> {
        match self {
            ReducePlanError::RankOutOfRange => "reduce-rank-out-of-range"@,
            ReducePlanError::ZeroExtent => "reduce-zero-extent"@,
            ReducePlanError::AddressOutOfRange => "reduce-address-out-of-range"@,
            ReducePlanError::ReducedMaskInvalid => "reduce-reduced-mask-invalid"@,
            ReducePlanError::InvalidScale => "reduce-invalid-scale"@,
            ReducePlanError::TooManyWorkgroups => "reduce-too-many-workgroups"@,
            ReducePlanError::CapacityTooSmall => "reduce-capacity-too-small"@,
            ReducePlanError::StorageFlagsOutOfRange => "reduce-storage-flags-out-of-range"@,
        }
    }

    /// The refusal's stable name.
    pub fn name(&self) -> (r: &'static str)
        ensures
            r@ == self.text(),
    {
        match self {
            ReducePlanError::RankOutOfRange => "reduce-rank-out-of-range",
            ReducePlanError::ZeroExtent => "reduce-zero-extent",
            ReducePlanError::AddressOutOfRange => "reduce-address-out-of-range",
            ReducePlanError::ReducedMaskInvalid => "reduce-reduced-mask-invalid",
            ReducePlanError::InvalidScale => "reduce-invalid-scale",
            ReducePlanError::TooManyWorkgroups => "reduce-too-many-workgroups",
            ReducePlanError::CapacityTooSmall => "reduce-capacity-too-small",
            ReducePlanError::StorageFlagsOutOfRange => "reduce-storage-flags-out-of-range",
        }
    }
}

/// What a `ReduceView` describes: extents and element strides padded to six
/// dimensions with extent 1 and stride 0.
#[verifier::ext_equal]
pub ghost struct ReduceViewModel {
    pub shape: Seq<u32>,
    pub stride: Seq<u32>,
    pub ndim: nat,
    pub offset: u32,
}

/// A slice padded to six entries.
pub open spec fn padded(s: Seq<u32>, fill: u32) -> Seq<u32> {
    Seq::new(
        6,
        |d: int|
            if d < s.len() {
                s[d]
            } else {
                fill
            },
    )
}

/// Dimension `d` is reduced under a mask.
pub open spec fn reduced(mask: u32, d: int) -> bool {
    mask & (1u32 << (d as u32)) != 0
}

impl ReduceViewModel {
    /// How far the first `d` dimensions reach.
    pub open spec fn span(self, d: nat) -> int
        decreases d,
    {
        if d == 0 {
            0
        } else {
            self.span((d - 1) as nat) + (self.shape[d - 1] - 1) * self.stride[d - 1]
        }
    }

    /// The largest element offset the view touches.
    pub open spec fn last(self) -> int {
        self.offset + self.span(self.ndim)
    }

    /// The product of the first `d` extents whose dimension the mask marks
    /// `marked`.
    pub open spec fn product(self, mask: u32, marked: bool, d: nat) -> int
        decreases d,
    {
        if d == 0 {
            1
        } else if reduced(mask, d - 1) == marked {
            self.product(mask, marked, (d - 1) as nat) * self.shape[d - 1]
        } else {
            self.product(mask, marked, (d - 1) as nat)
        }
    }

    /// The product of the first `d` extents.
    pub open spec fn count(self, d: nat) -> int
        decreases d,
    {
        if d == 0 {
            1
        } else {
            self.count((d - 1) as nat) * self.shape[d - 1]
        }
    }

    /// Output elements under a mask.
    pub open spec fn kept(self, mask: u32) -> int {
        self.product(mask, false, self.ndim)
    }

    /// Elements combined into one output element under a mask.
    pub open spec fn reduced_elements(self, mask: u32) -> int {
        self.product(mask, true, self.ndim)
    }

    pub open spec fn valid(self) -> bool {
        &&& self.shape.len() == 6
        &&& self.stride.len() == 6
        &&& 1 <= self.ndim <= 6
        &&& forall|d: int| 0 <= d < 6 ==> #[trigger] self.shape[d] >= 1
        &&& forall|d: int| self.ndim <= d < 6 ==> #[trigger] self.shape[d] == 1
        &&& forall|d: int| self.ndim <= d < 6 ==> #[trigger] self.stride[d] == 0
        &&& self.last() < MAX_ADDRESS
    }

    /// Where index `i` into the dimensions that the mask marks `marked` leads:
    /// row-major, the last such dimension varying fastest.
    pub open spec fn walk(self, mask: u32, marked: bool, i: int, d: nat) -> int
        decreases d,
    {
        if d == 0 {
            0
        } else if reduced(mask, d - 1) == marked {
            (i % (self.shape[d - 1] as int)) * self.stride[d - 1] + self.walk(
                mask,
                marked,
                i / (self.shape[d - 1] as int),
                (d - 1) as nat,
            )
        } else {
            self.walk(mask, marked, i, (d - 1) as nat)
        }
    }

    /// The address of the element with kept index `k` and reduced index `r`.
    pub open spec fn address(self, mask: u32, k: int, r: int) -> int {
        self.offset + self.walk(mask, false, k, self.ndim) + self.walk(mask, true, r, self.ndim)
    }
}

proof fn lemma_span_step(v: ReduceViewModel, j: nat, k: nat)
    requires
        v.shape.len() == 6,
        forall|d: int| 0 <= d < 6 ==> #[trigger] v.shape[d] >= 1,
        j <= k <= 6,
    ensures
        0 <= v.span(j) <= v.span(k),
    decreases k,
{
    if k > 0 {
        assert(v.shape[k - 1] >= 1);
        assert((v.shape[k - 1] - 1) * v.stride[k - 1] >= 0) by (nonlinear_arith)
            requires
                v.shape[k - 1] >= 1,
                v.stride[k - 1] >= 0,
        ;
        if j < k {
            lemma_span_step(v, j, (k - 1) as nat);
        } else {
            lemma_span_step(v, (k - 1) as nat, (k - 1) as nat);
        }
    }
}

proof fn lemma_product_step(v: ReduceViewModel, mask: u32, marked: bool, j: nat, k: nat)
    requires
        v.shape.len() == 6,
        forall|d: int| 0 <= d < 6 ==> #[trigger] v.shape[d] >= 1,
        j <= k <= 6,
    ensures
        1 <= v.product(mask, marked, j) <= v.product(mask, marked, k),
    decreases k,
{
    if k > 0 {
        if j < k {
            lemma_product_step(v, mask, marked, j, (k - 1) as nat);
        } else {
            lemma_product_step(v, mask, marked, (k - 1) as nat, (k - 1) as nat);
        }
        let p = v.product(mask, marked, (k - 1) as nat);
        assert(v.shape[k - 1] >= 1);
        assert(p <= p * v.shape[k - 1]) by (nonlinear_arith)
            requires
                p >= 1,
                v.shape[k - 1] >= 1,
        ;
    }
}

/// Every element is one kept index and one reduced index.
pub proof fn law_kept_times_reduced_is_every_element(v: ReduceViewModel, mask: u32, d: nat)
    requires
        d <= 6,
    ensures
        v.product(mask, false, d) * v.product(mask, true, d) == v.count(d),
    decreases d,
{
    if d > 0 {
        law_kept_times_reduced_is_every_element(v, mask, (d - 1) as nat);
        let k = v.product(mask, false, (d - 1) as nat);
        let r = v.product(mask, true, (d - 1) as nat);
        let s = v.shape[d - 1] as int;
        assert((k * s) * r == (k * r) * s && k * (r * s) == (k * r) * s) by (nonlinear_arith);
    }
}

proof fn lemma_walk_bounds(v: ReduceViewModel, mask: u32, k: int, r: int, d: nat)
    requires
        v.shape.len() == 6,
        forall|e: int| 0 <= e < 6 ==> #[trigger] v.shape[e] >= 1,
        k >= 0,
        r >= 0,
        d <= 6,
    ensures
        0 <= v.walk(mask, false, k, d),
        0 <= v.walk(mask, true, r, d),
        v.walk(mask, false, k, d) + v.walk(mask, true, r, d) <= v.span(d),
    decreases d,
{
    if d > 0 {
        let s = v.shape[d - 1] as int;
        let t = v.stride[d - 1] as int;
        assert(s >= 1);
        if reduced(mask, d - 1) {
            vstd::arithmetic::div_mod::lemma_div_pos_is_pos(r, s);
            lemma_walk_bounds(v, mask, k, r / s, (d - 1) as nat);
            vstd::arithmetic::div_mod::lemma_mod_bound(r, s);
            let digit = r % s;
            assert(0 <= digit * t <= (s - 1) * t) by (nonlinear_arith)
                requires
                    0 <= digit <= s - 1,
                    t >= 0,
            ;
        } else {
            vstd::arithmetic::div_mod::lemma_div_pos_is_pos(k, s);
            lemma_walk_bounds(v, mask, k / s, r, (d - 1) as nat);
            vstd::arithmetic::div_mod::lemma_mod_bound(k, s);
            let digit = k % s;
            assert(0 <= digit * t <= (s - 1) * t) by (nonlinear_arith)
                requires
                    0 <= digit <= s - 1,
                    t >= 0,
            ;
        }
    }
}

/// Every element a reduction reads lies at or before the view's last address.
pub proof fn law_every_address_is_inside_the_view(v: ReduceViewModel, mask: u32, k: int, r: int)
    requires
        v.valid(),
        k >= 0,
        r >= 0,
    ensures
        0 <= v.address(mask, k, r) <= v.last(),
{
    lemma_walk_bounds(v, mask, k, r, v.ndim);
}

impl ReduceViewModel {
    /// `c` gives a place in each of the first `d` dimensions.
    pub open spec fn names(self, c: Seq<int>, d: nat) -> bool {
        c.len() == 6 && forall|e: int| 0 <= e < d ==> 0 <= #[trigger] c[e] < self.shape[e]
    }

    /// Where the coordinates in the first `d` dimensions lead.
    pub open spec fn displacement(self, c: Seq<int>, d: nat) -> int
        decreases d,
    {
        if d == 0 {
            0
        } else {
            self.displacement(c, (d - 1) as nat) + c[d - 1] * self.stride[d - 1]
        }
    }

    /// The row-major index of the coordinates in the dimensions among the first
    /// `d` that the mask marks `marked`.
    pub open spec fn index_of(self, mask: u32, marked: bool, c: Seq<int>, d: nat) -> int
        decreases d,
    {
        if d == 0 {
            0
        } else if reduced(mask, d - 1) == marked {
            self.index_of(mask, marked, c, (d - 1) as nat) * self.shape[d - 1] + c[d - 1]
        } else {
            self.index_of(mask, marked, c, (d - 1) as nat)
        }
    }
}

proof fn lemma_index_leads(v: ReduceViewModel, mask: u32, c: Seq<int>, d: nat)
    requires
        v.shape.len() == 6,
        d <= 6,
        v.names(c, d),
    ensures
        0 <= v.index_of(mask, false, c, d) < v.product(mask, false, d),
        0 <= v.index_of(mask, true, c, d) < v.product(mask, true, d),
        v.walk(mask, false, v.index_of(mask, false, c, d), d) + v.walk(
            mask,
            true,
            v.index_of(mask, true, c, d),
            d,
        ) == v.displacement(c, d),
    decreases d,
{
    if d > 0 {
        lemma_index_leads(v, mask, c, (d - 1) as nat);
        let marked = reduced(mask, d - 1);
        let s = v.shape[d - 1] as int;
        let i = v.index_of(mask, marked, c, (d - 1) as nat);
        let p = v.product(mask, marked, (d - 1) as nat);
        assert(0 <= c[d - 1] < s);
        assert(0 <= i * s + c[d - 1] < p * s) by (nonlinear_arith)
            requires
                0 <= i < p,
                0 <= c[d - 1] < s,
        ;
        vstd::arithmetic::div_mod::lemma_fundamental_div_mod_converse(
            i * s + c[d - 1],
            s,
            i,
            c[d - 1],
        );
    }
}

proof fn lemma_index_is_unique(v: ReduceViewModel, mask: u32, a: Seq<int>, b: Seq<int>, d: nat)
    requires
        v.shape.len() == 6,
        d <= 6,
        v.names(a, d),
        v.names(b, d),
        v.index_of(mask, false, a, d) == v.index_of(mask, false, b, d),
        v.index_of(mask, true, a, d) == v.index_of(mask, true, b, d),
    ensures
        forall|e: int| 0 <= e < d ==> #[trigger] a[e] == b[e],
    decreases d,
{
    if d > 0 {
        let marked = reduced(mask, d - 1);
        let s = v.shape[d - 1] as int;
        let i = v.index_of(mask, marked, a, (d - 1) as nat);
        let j = v.index_of(mask, marked, b, (d - 1) as nat);
        assert(0 <= a[d - 1] < s && 0 <= b[d - 1] < s);
        assert(i == j && a[d - 1] == b[d - 1]) by (nonlinear_arith)
            requires
                i * s + a[d - 1] == j * s + b[d - 1],
                0 <= a[d - 1] < s,
                0 <= b[d - 1] < s,
        ;
        lemma_index_is_unique(v, mask, a, b, (d - 1) as nat);
    }
}

/// Every element of a view has one kept index and one reduced index, and is
/// read at its own address under them; no other element has both.
pub proof fn law_every_element_is_read_once(
    v: ReduceViewModel,
    mask: u32,
    a: Seq<int>,
    b: Seq<int>,
)
    requires
        v.valid(),
        v.names(a, 6),
        v.names(b, 6),
    ensures
        0 <= v.index_of(mask, false, a, v.ndim) < v.kept(mask),
        0 <= v.index_of(mask, true, a, v.ndim) < v.reduced_elements(mask),
        v.address(
            mask,
            v.index_of(mask, false, a, v.ndim),
            v.index_of(mask, true, a, v.ndim),
        ) == v.offset + v.displacement(a, v.ndim),
        v.index_of(mask, false, a, v.ndim) == v.index_of(mask, false, b, v.ndim) && v.index_of(
            mask,
            true,
            a,
            v.ndim,
        ) == v.index_of(mask, true, b, v.ndim) ==> a == b,
{
    lemma_index_leads(v, mask, a, v.ndim);
    if v.index_of(mask, false, a, v.ndim) == v.index_of(mask, false, b, v.ndim) && v.index_of(
        mask,
        true,
        a,
        v.ndim,
    ) == v.index_of(mask, true, b, v.ndim) {
        lemma_index_is_unique(v, mask, a, b, v.ndim);
        assert forall|e: int| 0 <= e < 6 implies #[trigger] a[e] == b[e] by {
            if e >= v.ndim {
                assert(v.shape[e] == 1);
            }
        }
        assert(a =~= b);
    }
}

/// A strided view of FP32 elements inside a buffer. Strides are element
/// strides and may be zero, in any order.
#[derive(Clone, Copy, Debug, PartialEq, Eq)]
pub struct ReduceView {
    shape: [u32; 6],
    stride: [u32; 6],
    ndim: usize,
    offset: u32,
}

impl View for ReduceView {
    type V = ReduceViewModel;

    closed spec fn view(&self) -> ReduceViewModel {
        ReduceViewModel {
            shape: self.shape@,
            stride: self.stride@,
            ndim: self.ndim as nat,
            offset: self.offset,
        }
    }
}

/// The view that extents, strides and an offset describe.
pub open spec fn described(shape: Seq<u32>, stride: Seq<u32>, offset: u32) -> ReduceViewModel {
    ReduceViewModel {
        shape: padded(shape, 1),
        stride: padded(stride, 0),
        ndim: shape.len(),
        offset,
    }
}

/// Why a view is refused, if it is.
pub open spec fn view_refusal(shape: Seq<u32>, stride: Seq<u32>, offset: u32) -> Option<
    ReducePlanError,
> {
    if shape.len() == 0 || shape.len() > MAX_RANK || stride.len() != shape.len() {
        Some(ReducePlanError::RankOutOfRange)
    } else if shape.contains(0) {
        Some(ReducePlanError::ZeroExtent)
    } else if described(shape, stride, offset).last() >= MAX_ADDRESS {
        Some(ReducePlanError::AddressOutOfRange)
    } else {
        None
    }
}

impl ReduceView {
    #[verifier::type_invariant]
    pub(crate) closed spec fn admitted(self) -> bool {
        self@.valid()
    }

    pub fn new(shape: &[u32], stride: &[u32], offset: u32) -> (r: Result<Self, ReducePlanError>)
        ensures
            match view_refusal(shape@, stride@, offset) {
                Some(e) => r == Err::<Self, ReducePlanError>(e),
                None => r is Ok && r->Ok_0@ == described(shape@, stride@, offset)
                    && r->Ok_0@.valid(),
            },
    {
        if shape.len() == 0 || shape.len() > MAX_RANK || stride.len() != shape.len() {
            return Err(ReducePlanError::RankOutOfRange);
        }
        let mut i: usize = 0;
        while i < shape.len()
            invariant
                i <= shape.len(),
                1 <= shape.len() <= MAX_RANK,
                stride.len() == shape.len(),
                forall|e: int| 0 <= e < i ==> shape@[e] >= 1,
            decreases shape.len() - i,
        {
            if shape[i] == 0 {
                proof {
                    assert(shape@[i as int] == 0);
                }
                return Err(ReducePlanError::ZeroExtent);
            }
            i += 1;
        }
        let ghost m = described(shape@, stride@, offset);
        let mut s: [u32; 6] = [1u32; 6];
        let mut t: [u32; 6] = [0u32; 6];
        let mut last: u64 = offset as u64;
        let mut d: usize = 0;
        proof {
            assert forall|e: int| 0 <= e < 6 implies #[trigger] m.shape[e] >= 1 by {}
        }
        while d < shape.len()
            invariant
                d <= shape.len() <= 6,
                1 <= shape.len(),
                stride.len() == shape.len(),
                !shape@.contains(0),
                m == described(shape@, stride@, offset),
                forall|e: int| 0 <= e < 6 ==> #[trigger] m.shape[e] >= 1,
                forall|e: int|
                    0 <= e < 6 ==> #[trigger] s@[e] == (if e < d {
                        shape@[e]
                    } else {
                        1
                    }),
                forall|e: int|
                    0 <= e < 6 ==> #[trigger] t@[e] == (if e < d {
                        stride@[e]
                    } else {
                        0
                    }),
                last == offset + m.span(d as nat),
                d > 0 ==> last < MAX_ADDRESS,
            decreases shape.len() - d,
        {
            s[d] = shape[d];
            t[d] = stride[d];
            proof {
                assert(m.shape[d as int] == shape@[d as int] && m.stride[d as int]
                    == stride@[d as int]);
                lemma_span_step(m, d as nat, (d + 1) as nat);
                lemma_span_step(m, (d + 1) as nat, m.ndim);
                assert((shape@[d as int] - 1) * stride@[d as int] <= 0xffff_ffff * 0xffff_ffff)
                    by (nonlinear_arith)
                    requires
                        1 <= shape@[d as int] <= 0xffff_ffff,
                        0 <= stride@[d as int] <= 0xffff_ffff,
                ;
            }
            let term: u64 = ((shape[d] - 1) as u64) * (stride[d] as u64);
            if term >= MAX_ADDRESS {
                return Err(ReducePlanError::AddressOutOfRange);
            }
            last = last + term;
            if last >= MAX_ADDRESS {
                return Err(ReducePlanError::AddressOutOfRange);
            }
            d += 1;
        }
        proof {
            assert(s@ =~= m.shape);
            assert(t@ =~= m.stride);
        }
        let view = ReduceView { shape: s, stride: t, ndim: shape.len(), offset };
        proof {
            assert(view@ =~= m);
        }
        Ok(view)
    }

    pub fn shape(&self) -> (r: [u32; 6])
        ensures
            r@ == self@.shape,
    {
        self.shape
    }

    pub fn stride(&self) -> (r: [u32; 6])
        ensures
            r@ == self@.stride,
    {
        self.stride
    }

    pub fn ndim(&self) -> (r: usize)
        ensures
            r == self@.ndim,
    {
        self.ndim
    }

    pub fn offset(&self) -> (r: u32)
        ensures
            r == self@.offset,
    {
        self.offset
    }

    /// The largest element offset the view touches (inclusive).
    pub fn last_address(&self) -> (r: u64)
        ensures
            r == self@.last(),
            r < MAX_ADDRESS,
    {
        proof {
            use_type_invariant(self);
        }
        let mut last: u64 = self.offset as u64;
        let mut d: usize = 0;
        while d < self.ndim
            invariant
                self@.valid(),
                d <= self.ndim,
                last == self@.offset + self@.span(d as nat),
            decreases self.ndim - d,
        {
            proof {
                lemma_span_step(self@, (d + 1) as nat, self@.ndim);
                lemma_span_step(self@, d as nat, (d + 1) as nat);
                assert(self@.shape[d as int] >= 1);
            }
            last = last + ((self.shape[d] - 1) as u64) * (self.stride[d] as u64);
            d += 1;
        }
        last
    }

    /// The elements the view names, repeats of a broadcast included.
    pub fn elements(&self) -> (r: u64)
        requires
            self@.count(self@.ndim) <= u64::MAX,
        ensures
            r == self@.count(self@.ndim),
    {
        proof {
            use_type_invariant(self);
        }
        let mut n: u64 = 1;
        let mut d: usize = 0;
        while d < self.ndim
            invariant
                self@.valid(),
                d <= self.ndim,
                n == self@.count(d as nat),
                self@.count(self@.ndim) <= u64::MAX,
            decreases self.ndim - d,
        {
            proof {
                lemma_count_step(self@, (d + 1) as nat, self@.ndim);
            }
            n = n * (self.shape[d] as u64);
            d += 1;
        }
        n
    }
}

proof fn lemma_count_step(v: ReduceViewModel, j: nat, k: nat)
    requires
        v.shape.len() == 6,
        forall|d: int| 0 <= d < 6 ==> #[trigger] v.shape[d] >= 1,
        j <= k <= 6,
    ensures
        1 <= v.count(j) <= v.count(k),
    decreases k,
{
    if k > 0 {
        if j < k {
            lemma_count_step(v, j, (k - 1) as nat);
        } else {
            lemma_count_step(v, (k - 1) as nat, (k - 1) as nat);
        }
        let p = v.count((k - 1) as nat);
        assert(v.shape[k - 1] >= 1);
        assert(p <= p * v.shape[k - 1]) by (nonlinear_arith)
            requires
                p >= 1,
                v.shape[k - 1] >= 1,
        ;
    }
}

/// The geometry of a first pass that lays the kept elements across its lanes:
/// the lane dimension, a second one folded onto it, the kept elements per
/// workgroup, the product of the other kept extents, and the folded span.
#[derive(Clone, Copy, Debug, PartialEq, Eq)]
pub struct V2Geometry {
    pub cdim: usize,
    pub cdim2: Option<usize>,
    pub tile_cols: u32,
    pub outer_kept: u64,
    pub k_flat: u64,
}

impl ReduceViewModel {
    /// A dimension longer than one with unit stride.
    pub open spec fn unit(self, d: int) -> bool {
        self.stride[d] == 1 && self.shape[d] > 1
    }

    /// The reduced side owns the unit stride.
    pub open spec fn reduced_unit(self, mask: u32) -> bool {
        exists|d: int| 0 <= d < self.ndim && reduced(mask, d) && #[trigger] self.unit(d)
    }

    /// The highest kept unit dimension below `n`.
    pub open spec fn lane_dim(self, mask: u32, n: nat) -> Option<usize>
        decreases n,
    {
        if n == 0 {
            None
        } else if !reduced(mask, n - 1) && self.unit(n - 1) {
            Some((n - 1) as usize)
        } else {
            self.lane_dim(mask, (n - 1) as nat)
        }
    }

    /// The highest other kept dimension below `n` that continues dimension `c`.
    pub open spec fn fold_dim(self, mask: u32, c: usize, n: nat) -> Option<usize>
        decreases n,
    {
        if n == 0 {
            None
        } else if n - 1 != c && !reduced(mask, n - 1) && self.shape[n - 1] > 1 && self.stride[n - 1]
            == self.shape[c as int] {
            Some((n - 1) as usize)
        } else {
            self.fold_dim(mask, c, (n - 1) as nat)
        }
    }

    /// The product of the kept extents below `n` other than the lane
    /// dimensions.
    pub open spec fn outer(self, mask: u32, c: usize, c2: Option<usize>, n: nat) -> int
        decreases n,
    {
        if n == 0 {
            1
        } else if !reduced(mask, n - 1) && n - 1 != c && c2 != Some((n - 1) as usize) {
            self.outer(mask, c, c2, (n - 1) as nat) * self.shape[n - 1]
        } else {
            self.outer(mask, c, c2, (n - 1) as nat)
        }
    }

    /// The consecutive kept elements along the lane dimensions.
    pub open spec fn flat(self, c: usize, c2: Option<usize>) -> int {
        self.shape[c as int] * (match c2 {
            Some(d) => self.shape[d as int] as int,
            None => 1,
        })
    }
}

/// Workgroups at a tile width.
pub open spec fn v2_groups(tile: int, k_flat: int, outer: int, splits: int) -> int {
    ceil_div(k_flat, tile) * outer * splits
}

/// The narrowest tile: a row lane of a workgroup keeps a row to read.
pub open spec fn narrowest_tile(chunk: int) -> int {
    let need = 256int / chunk;
    if need <= 8 {
        8
    } else if need <= 16 {
        16
    } else if need <= 32 {
        32
    } else if need <= 64 {
        64
    } else if need <= 128 {
        128
    } else {
        256
    }
}

/// The widest tile: the largest power of two that neither the span nor the
/// workgroup's lanes fall short of.
pub open spec fn widest_tile(k_flat: int) -> int {
    if k_flat >= 256 {
        256
    } else if k_flat >= 128 {
        128
    } else {
        64
    }
}

/// The tile, halved from `tile` until the grid is large enough or the tile is
/// the narrowest.
pub open spec fn fitted_tile(tile: int, narrowest: int, k_flat: int, outer: int, splits: int) -> int
    decreases tile,
{
    if tile > narrowest && tile > 1 && v2_groups(tile, k_flat, outer, splits) < V2_MIN_WORKGROUPS {
        fitted_tile(tile / 2, narrowest, k_flat, outer, splits)
    } else {
        tile
    }
}

/// Whether, and how, a first pass lays its kept elements across the lanes.
pub open spec fn v2_selected(v: ReduceViewModel, mask: u32, splits: int, chunk: int) -> Option<
    V2Geometry,
> {
    let lane = v.lane_dim(mask, v.ndim);
    if v.reduced_unit(mask) || lane is None {
        None
    } else {
        let c = lane->0;
        let c2 = v.fold_dim(mask, c, v.ndim);
        let flat = v.flat(c, c2);
        let outer = v.outer(mask, c, c2, v.ndim);
        let tile = fitted_tile(widest_tile(flat), narrowest_tile(chunk), flat, outer, splits);
        if flat < V2_MIN_KEPT || outer > MAX_GRID_YZ || splits > MAX_GRID_YZ {
            None
        } else if v2_groups(tile, flat, outer, splits) < V2_MIN_WORKGROUPS && flat
            < V2_MIN_KEPT_FOR_ANY_GRID {
            None
        } else {
            Some(
                V2Geometry {
                    cdim: c,
                    cdim2: c2,
                    tile_cols: tile as u32,
                    outer_kept: outer as u64,
                    k_flat: flat as u64,
                },
            )
        }
    }
}

/// The twenty words of a pass's push block.
pub open spec fn pass_words(
    op: ReduceOp,
    finish: Finish,
    v: ReduceViewModel,
    mask: u32,
    splits: u32,
    chunk: u32,
    scale: u32,
) -> Seq<u32> {
    seq![op.word(), finish.word(), v.ndim as u32, mask] + v.shape + v.stride + seq![
        v.offset,
        splits,
        chunk,
        scale,
    ]
}

/// The four words that the other kernel's block adds.
pub open spec fn geometry_words(g: V2Geometry) -> Seq<u32> {
    seq![
        g.cdim as u32,
        match g.cdim2 {
            Some(d) => d as u32,
            None => NONE_DIM,
        },
        g.tile_cols,
        g.outer_kept as u32,
    ]
}

/// What a `ReducePass` holds.
#[verifier::ext_equal]
pub ghost struct PassModel {
    pub kernel: ReduceKernel,
    pub storage: u32,
    pub push: Seq<u8>,
    pub tile_cols: u32,
    pub groups: Seq<u32>,
    pub input_len: int,
    pub output_len: int,
}

/// The number of fixed ranges a reduced index space is split into.
pub open spec fn split_count(reduced_count: int) -> int {
    if reduced_count > CHUNK {
        ceil_div(reduced_count, CHUNK as int)
    } else {
        1
    }
}

/// The length of each range but the last.
pub open spec fn chunk_len(reduced_count: int) -> int {
    if reduced_count > CHUNK {
        CHUNK as int
    } else {
        reduced_count
    }
}

/// The ranges cover every reduced element, and the last is not empty.
pub proof fn law_splits_cover_the_reduced_elements(reduced_count: int)
    requires
        reduced_count >= 1,
    ensures
        split_count(reduced_count) >= 1,
        split_count(reduced_count) * chunk_len(reduced_count) >= reduced_count,
        (split_count(reduced_count) - 1) * chunk_len(reduced_count) < reduced_count,
{
    lemma_ceil_div_covers(reduced_count, CHUNK as int);
    if reduced_count <= CHUNK {
        assert(split_count(reduced_count) * chunk_len(reduced_count) == reduced_count)
            by (nonlinear_arith)
            requires
                split_count(reduced_count) == 1,
                chunk_len(reduced_count) == reduced_count,
        ;
        assert((split_count(reduced_count) - 1) * chunk_len(reduced_count) == 0)
            by (nonlinear_arith)
            requires
                split_count(reduced_count) == 1,
        ;
    }
}

/// A reduction request.
pub ghost struct ReduceRequestModel {
    pub view: ReduceViewModel,
    pub mask: u32,
    pub op: ReduceOp,
    pub finish: Finish,
    pub scale: u32,
    pub capacity: u64,
    pub allow_v2: bool,
    pub storage: u32,
}

impl ReduceRequestModel {
    pub open spec fn kept(self) -> int {
        self.view.kept(self.mask)
    }

    pub open spec fn reduced_count(self) -> int {
        self.view.reduced_elements(self.mask)
    }

    pub open spec fn splits(self) -> int {
        split_count(self.reduced_count())
    }

    pub open spec fn chunk(self) -> int {
        chunk_len(self.reduced_count())
    }

    /// Why the request is refused, if it is.
    pub open spec fn refusal(self) -> Option<ReducePlanError> {
        if self.storage & !3u32 != 0 {
            Some(ReducePlanError::StorageFlagsOutOfRange)
        } else if self.mask == 0 || self.mask >> (self.view.ndim as u32) != 0 {
            Some(ReducePlanError::ReducedMaskInvalid)
        } else if !finite(self.scale) {
            Some(ReducePlanError::InvalidScale)
        } else if self.view.last() >= self.capacity {
            Some(ReducePlanError::CapacityTooSmall)
        } else if self.splits() > u32::MAX || self.kept() > u32::MAX || self.kept() * self.splits()
            > MAX_WORKGROUPS {
            Some(ReducePlanError::TooManyWorkgroups)
        } else {
            None
        }
    }

    /// The finish of the first pass: a split reduction finishes in the second.
    pub open spec fn first_finish(self) -> Finish {
        if self.splits() == 1 {
            self.finish
        } else {
            Finish::NoFinish
        }
    }

    /// The storage bits of the first pass: partial results are four-byte.
    pub open spec fn first_storage(self) -> u32 {
        if self.splits() == 1 {
            self.storage
        } else {
            self.storage & 1u32
        }
    }

    pub open spec fn geometry(self) -> Option<V2Geometry> {
        if self.allow_v2 {
            v2_selected(self.view, self.mask, self.splits(), self.chunk())
        } else {
            None
        }
    }

    /// The first pass: the input to the output, or to one partial result per
    /// kept element and split.
    pub open spec fn first(self) -> PassModel {
        let words = pass_words(
            self.op,
            self.first_finish(),
            self.view,
            self.mask,
            self.splits() as u32,
            self.chunk() as u32,
            self.scale,
        );
        match self.geometry() {
            Some(g) => PassModel {
                kernel: ReduceKernel::V2,
                storage: self.first_storage(),
                push: words_bytes(words + geometry_words(g)),
                tile_cols: g.tile_cols,
                groups: seq![
                    ceil_div(g.k_flat as int, g.tile_cols as int) as u32,
                    self.splits() as u32,
                    g.outer_kept as u32,
                ],
                input_len: self.view.last() + 1,
                output_len: self.kept() * self.splits(),
            },
            None => PassModel {
                kernel: ReduceKernel::V1,
                storage: self.first_storage(),
                push: words_bytes(words),
                tile_cols: 0,
                groups: seq![(self.kept() * self.splits()) as u32, 1u32, 1u32],
                input_len: self.view.last() + 1,
                output_len: self.kept() * self.splits(),
            },
        }
    }

    /// The dense `[kept, splits]` view of the partial results.
    pub open spec fn partials(self) -> ReduceViewModel {
        described(
            seq![self.kept() as u32, self.splits() as u32],
            seq![self.splits() as u32, 1u32],
            0,
        )
    }

    /// The second pass, over the partial results, where the first was split.
    pub open spec fn second(self) -> Option<PassModel> {
        if self.splits() == 1 {
            None
        } else {
            Some(
                PassModel {
                    kernel: ReduceKernel::V1,
                    storage: self.storage & 2u32,
                    push: words_bytes(
                        pass_words(
                            self.op.combined_by(),
                            self.finish,
                            self.partials(),
                            2,
                            1,
                            self.splits() as u32,
                            self.scale,
                        ),
                    ),
                    tile_cols: 0,
                    groups: seq![self.kept() as u32, 1u32, 1u32],
                    input_len: self.kept() * self.splits(),
                    output_len: self.kept(),
                },
            )
        }
    }
}

/// One dispatch of a kernel: its push constants and grid.
#[derive(Clone, Copy, Debug, PartialEq, Eq)]
pub struct ReducePass {
    kernel: ReduceKernel,
    storage: u32,
    push: [u8; 96],
    push_len: usize,
    tile_cols: u32,
    groups: [u32; 3],
    input_len: usize,
    output_len: usize,
}

impl View for ReducePass {
    type V = PassModel;

    closed spec fn view(&self) -> PassModel {
        PassModel {
            kernel: self.kernel,
            storage: self.storage,
            push: self.push@.take(self.push_len as int),
            tile_cols: self.tile_cols,
            groups: self.groups@,
            input_len: self.input_len as int,
            output_len: self.output_len as int,
        }
    }
}

impl ReducePass {
    #[verifier::type_invariant]
    spec fn sized(self) -> bool {
        self.push_len <= 96
    }

    /// The push block the pass's kernel expects.
    pub fn push_constants(&self) -> (r: &[u8])
        ensures
            r@ == self@.push,
    {
        proof {
            use_type_invariant(self);
        }
        let all: &[u8] = &self.push;
        vstd::slice::slice_subrange(all, 0, self.push_len)
    }

    pub fn kernel(&self) -> (r: ReduceKernel)
        ensures
            r == self@.kernel,
    {
        self.kernel
    }

    /// This pass's storage bits: bit 0 the buffer it reads, bit 1 the one it
    /// writes.
    pub fn storage(&self) -> (r: u32)
        ensures
            r == self@.storage,
    {
        self.storage
    }

    /// The module this pass selects among its kernel's.
    pub fn storage_module(&self) -> (r: usize)
        ensures
            r == self@.storage,
    {
        self.storage as usize
    }

    /// Kept elements per workgroup where they lie across the lanes, else zero.
    pub fn tile_cols(&self) -> (r: u32)
        ensures
            r == self@.tile_cols,
    {
        self.tile_cols
    }

    pub fn dispatch_groups(&self) -> (r: [u32; 3])
        ensures
            r@ == self@.groups,
    {
        self.groups
    }

    /// Minimum element count of the buffer read.
    pub fn input_len(&self) -> (r: usize)
        ensures
            r == self@.input_len,
    {
        self.input_len
    }

    /// Exact element count written.
    pub fn output_len(&self) -> (r: usize)
        ensures
            r == self@.output_len,
    {
        self.output_len
    }
}

/// The words of a pass's push block.
fn push_words(
    op: ReduceOp,
    finish: Finish,
    view: &ReduceView,
    reduced_mask: u32,
    splits: u32,
    chunk: u32,
    scale: u32,
) -> (r: [u32; 20])
    ensures
        r@ == pass_words(op, finish, view@, reduced_mask, splits, chunk, scale),
{
    let r: [u32; 20] = [
        op as u32,
        finish as u32,
        view.ndim as u32,
        reduced_mask,
        view.shape[0],
        view.shape[1],
        view.shape[2],
        view.shape[3],
        view.shape[4],
        view.shape[5],
        view.stride[0],
        view.stride[1],
        view.stride[2],
        view.stride[3],
        view.stride[4],
        view.stride[5],
        view.offset,
        splits,
        chunk,
        scale,
    ];
    proof {
        use_type_invariant(view);
        assert(r@ =~= pass_words(op, finish, view@, reduced_mask, splits, chunk, scale));
    }
    r
}

/// A pass's push block.
pub fn push_bytes(
    op: ReduceOp,
    finish: Finish,
    view: &ReduceView,
    reduced_mask: u32,
    splits: u32,
    chunk: u32,
    scale: u32,
) -> (r: [u8; 80])
    ensures
        r@ == words_bytes(pass_words(op, finish, view@, reduced_mask, splits, chunk, scale)),
        word_at(r@, 3) == reduced_mask,
        word_at(r@, 16) == view@.offset,
        word_at(r@, 17) == splits,
        word_at(r@, 18) == chunk,
        word_at(r@, 19) == scale,
{
    proof {
        use_type_invariant(view);
        law_words_read_back(pass_words(op, finish, view@, reduced_mask, splits, chunk, scale));
    }
    block(push_words(op, finish, view, reduced_mask, splits, chunk, scale))
}

/// The words of the other kernel's push block.
fn push_words_v2(v1: [u32; 20], g: &V2Geometry) -> (r: [u32; 24])
    ensures
        r@ == v1@ + geometry_words(*g),
{
    let second: u32 = match g.cdim2 {
        Some(d) => d as u32,
        None => NONE_DIM,
    };
    let r: [u32; 24] = [
        v1[0],
        v1[1],
        v1[2],
        v1[3],
        v1[4],
        v1[5],
        v1[6],
        v1[7],
        v1[8],
        v1[9],
        v1[10],
        v1[11],
        v1[12],
        v1[13],
        v1[14],
        v1[15],
        v1[16],
        v1[17],
        v1[18],
        v1[19],
        g.cdim as u32,
        second,
        g.tile_cols,
        g.outer_kept as u32,
    ];
    proof {
        assert(r@ =~= v1@ + geometry_words(*g));
    }
    r
}

/// A 96-byte buffer that begins with an 80-byte block.
fn short_block(words: [u32; 20]) -> (r: [u8; 96])
    ensures
        r@.take(80) == words_bytes(words@),
{
    let bytes: [u8; 80] = block(words);
    let mut r: [u8; 96] = [0u8; 96];
    let mut i: usize = 0;
    while i < 80
        invariant
            i <= 80,
            forall|j: int| 0 <= j < i ==> r@[j] == bytes@[j],
        decreases 80 - i,
    {
        r[i] = bytes[i];
        i += 1;
    }
    proof {
        assert(r@.take(80) =~= bytes@);
    }
    r
}

proof fn lemma_lane_dim(v: ReduceViewModel, mask: u32, n: nat)
    requires
        n <= 6,
    ensures
        match v.lane_dim(mask, n) {
            Some(c) => c < n && !reduced(mask, c as int) && v.unit(c as int),
            None => true,
        },
    decreases n,
{
    if n > 0 {
        lemma_lane_dim(v, mask, (n - 1) as nat);
    }
}

proof fn lemma_fold_dim(v: ReduceViewModel, mask: u32, c: usize, n: nat)
    requires
        n <= 6,
    ensures
        match v.fold_dim(mask, c, n) {
            Some(d) => d < n && d != c && !reduced(mask, d as int),
            None => true,
        },
    decreases n,
{
    if n > 0 {
        lemma_fold_dim(v, mask, c, (n - 1) as nat);
    }
}

/// The extent of dimension `c` once the first `n` dimensions hold it.
spec fn held(v: ReduceViewModel, c: Option<usize>, n: nat) -> int {
    match c {
        Some(d) => if d < n {
            v.shape[d as int] as int
        } else {
            1
        },
        None => 1,
    }
}

/// The kept elements are the lane dimensions' times the others'.
proof fn lemma_outer_times_flat(
    v: ReduceViewModel,
    mask: u32,
    c: usize,
    c2: Option<usize>,
    n: nat,
)
    requires
        v.shape.len() == 6,
        forall|d: int| 0 <= d < 6 ==> #[trigger] v.shape[d] >= 1,
        n <= 6,
        !reduced(mask, c as int),
        c2 != Some(c),
        c2 is Some ==> !reduced(mask, c2->0 as int),
    ensures
        v.outer(mask, c, c2, n) >= 1,
        v.product(mask, false, n) == v.outer(mask, c, c2, n) * (held(v, Some(c), n) * held(
            v,
            c2,
            n,
        )),
    decreases n,
{
    if n > 0 {
        let m = (n - 1) as nat;
        lemma_outer_times_flat(v, mask, c, c2, m);
        let o = v.outer(mask, c, c2, m);
        let a = held(v, Some(c), m);
        let b = held(v, c2, m);
        let s = v.shape[n - 1] as int;
        assert(s >= 1);
        assert(o * s >= 1) by (nonlinear_arith)
            requires
                o >= 1,
                s >= 1,
        ;
        assert((o * (a * b)) * s == (o * s) * (a * b)) by (nonlinear_arith);
        assert((o * (1 * b)) * s == o * (s * b)) by (nonlinear_arith);
        assert((o * (a * 1)) * s == o * (a * s)) by (nonlinear_arith);
    }
}

/// The whole grid fits: every tile width makes at most one workgroup per kept
/// element and split.
proof fn lemma_groups_bound(tile: int, k_flat: int, outer: int, splits: int)
    requires
        tile >= 1,
        k_flat >= 1,
        outer >= 1,
        splits >= 1,
    ensures
        1 <= ceil_div(k_flat, tile) <= k_flat,
        1 <= ceil_div(k_flat, tile) * outer <= k_flat * outer,
        1 <= v2_groups(tile, k_flat, outer, splits) <= k_flat * outer * splits,
{
    lemma_ceil_div_covers(k_flat, tile);
    let q = ceil_div(k_flat, tile);
    assert(1 <= q * outer <= k_flat * outer) by (nonlinear_arith)
        requires
            1 <= q <= k_flat,
            outer >= 1,
    ;
    let qo = q * outer;
    let ko = k_flat * outer;
    assert(1 <= qo * splits <= ko * splits) by (nonlinear_arith)
        requires
            1 <= qo <= ko,
            splits >= 1,
    ;
}

fn grid_size(tile: u64, k_flat: u64, outer_kept: u64, splits: u32) -> (r: u64)
    requires
        tile >= 1,
        k_flat >= 1,
        outer_kept >= 1,
        splits >= 1,
        k_flat * outer_kept * splits <= MAX_WORKGROUPS,
    ensures
        r == v2_groups(tile as int, k_flat as int, outer_kept as int, splits as int),
{
    proof {
        lemma_groups_bound(tile as int, k_flat as int, outer_kept as int, splits as int);
        let ko = k_flat * outer_kept;
        assert(ko <= ko * splits) by (nonlinear_arith)
            requires
                ko >= 0,
                splits >= 1,
        ;
    }
    div_ceil_u64(k_flat, tile) * outer_kept * (splits as u64)
}

pub(crate) fn is_reduced(mask: u32, d: usize) -> (r: bool)
    requires
        d < 6,
    ensures
        r == reduced(mask, d as int),
{
    mask & (1u32 << (d as u32)) != 0
}

fn has_reduced_unit(view: &ReduceView, mask: u32) -> (r: bool)
    requires
        view@.valid(),
    ensures
        r == view@.reduced_unit(mask),
{
    let mut d: usize = 0;
    while d < view.ndim
        invariant
            view@.valid(),
            d <= view.ndim,
            forall|e: int| 0 <= e < d && reduced(mask, e) ==> !#[trigger] view@.unit(e),
        decreases view.ndim - d,
    {
        if is_reduced(mask, d) && view.stride[d] == 1 && view.shape[d] > 1 {
            proof {
                assert(view@.unit(d as int));
            }
            return true;
        }
        d += 1;
    }
    false
}

fn find_lane(view: &ReduceView, mask: u32) -> (r: Option<usize>)
    requires
        view@.valid(),
    ensures
        r == view@.lane_dim(mask, view@.ndim),
{
    let mut n: usize = view.ndim;
    while n > 0
        invariant
            view@.valid(),
            n <= view.ndim,
            view@.lane_dim(mask, view@.ndim) == view@.lane_dim(mask, n as nat),
        decreases n,
    {
        n -= 1;
        if !is_reduced(mask, n) && view.stride[n] == 1 && view.shape[n] > 1 {
            return Some(n);
        }
    }
    None
}

fn find_fold(view: &ReduceView, mask: u32, c: usize) -> (r: Option<usize>)
    requires
        view@.valid(),
        c < 6,
    ensures
        r == view@.fold_dim(mask, c, view@.ndim),
{
    let mut n: usize = view.ndim;
    while n > 0
        invariant
            view@.valid(),
            n <= view.ndim,
            c < 6,
            view@.fold_dim(mask, c, view@.ndim) == view@.fold_dim(mask, c, n as nat),
        decreases n,
    {
        n -= 1;
        if n != c && !is_reduced(mask, n) && view.shape[n] > 1 && view.stride[n] == view.shape[c] {
            return Some(n);
        }
    }
    None
}

proof fn lemma_outer_monotone(
    v: ReduceViewModel,
    mask: u32,
    c: usize,
    c2: Option<usize>,
    j: nat,
    k: nat,
)
    requires
        v.shape.len() == 6,
        forall|d: int| 0 <= d < 6 ==> #[trigger] v.shape[d] >= 1,
        j <= k <= 6,
    ensures
        1 <= v.outer(mask, c, c2, j) <= v.outer(mask, c, c2, k),
    decreases k,
{
    if k > 0 {
        if j < k {
            lemma_outer_monotone(v, mask, c, c2, j, (k - 1) as nat);
        } else {
            lemma_outer_monotone(v, mask, c, c2, (k - 1) as nat, (k - 1) as nat);
        }
        let p = v.outer(mask, c, c2, (k - 1) as nat);
        assert(v.shape[k - 1] >= 1);
        assert(p <= p * v.shape[k - 1]) by (nonlinear_arith)
            requires
                p >= 1,
                v.shape[k - 1] >= 1,
        ;
    }
}

fn outer_product(view: &ReduceView, mask: u32, c: usize, c2: Option<usize>) -> (r: u64)
    requires
        view@.valid(),
        view@.outer(mask, c, c2, view@.ndim) <= u32::MAX,
    ensures
        r == view@.outer(mask, c, c2, view@.ndim),
{
    let mut p: u64 = 1;
    let mut d: usize = 0;
    while d < view.ndim
        invariant
            view@.valid(),
            d <= view.ndim,
            view@.outer(mask, c, c2, view@.ndim) <= u32::MAX,
            p == view@.outer(mask, c, c2, d as nat),
        decreases view.ndim - d,
    {
        proof {
            lemma_outer_monotone(view@, mask, c, c2, (d + 1) as nat, view@.ndim);
        }
        let folded: bool = match c2 {
            Some(e) => e == d,
            None => false,
        };
        if !is_reduced(mask, d) && d != c && !folded {
            p = p * (view.shape[d] as u64);
        }
        d += 1;
    }
    p
}

fn narrowest(chunk: u32) -> (r: u64)
    requires
        chunk >= 1,
    ensures
        r == narrowest_tile(chunk as int),
{
    let need: u32 = 256 / chunk;
    if need <= 8 {
        8
    } else if need <= 16 {
        16
    } else if need <= 32 {
        32
    } else if need <= 64 {
        64
    } else if need <= 128 {
        128
    } else {
        256
    }
}

/// Whether, and how, the first pass lays its kept elements across the lanes:
/// only where the kept side owns the unit stride, the span along it is wide
/// enough, and the grid is one that a device takes and that fills it.
fn select_v2(view: &ReduceView, reduced_mask: u32, splits: u32, chunk: u32) -> (r: Option<
    V2Geometry,
>)
    requires
        splits >= 1,
        chunk >= 1,
        view@.kept(reduced_mask) <= u32::MAX,
        view@.kept(reduced_mask) * splits <= MAX_WORKGROUPS,
    ensures
        r == v2_selected(view@, reduced_mask, splits as int, chunk as int),
        r is Some ==> {
            let g = r->0;
            &&& g.cdim < 6
            &&& g.cdim2 is Some ==> g.cdim2->0 < 6
            &&& 1 <= g.tile_cols <= 256
            &&& 1 <= g.outer_kept <= MAX_GRID_YZ
            &&& 1 <= g.k_flat <= u32::MAX
        },
{
    proof {
        use_type_invariant(view);
        lemma_lane_dim(view@, reduced_mask, view@.ndim);
    }
    if has_reduced_unit(view, reduced_mask) {
        return None;
    }
    let cdim: usize = match find_lane(view, reduced_mask) {
        Some(c) => c,
        None => return None,
    };
    let cdim2: Option<usize> = find_fold(view, reduced_mask, cdim);
    let ghost flat = view@.flat(cdim, cdim2);
    let ghost outer = view@.outer(reduced_mask, cdim, cdim2, view@.ndim);
    proof {
        lemma_fold_dim(view@, reduced_mask, cdim, view@.ndim);
        lemma_outer_times_flat(view@, reduced_mask, cdim, cdim2, view@.ndim);
        assert(view@.shape[cdim as int] >= 1);
        if cdim2 is Some {
            assert(view@.shape[cdim2->0 as int] >= 1);
        }
        assert(held(view@, Some(cdim), view@.ndim) * held(view@, cdim2, view@.ndim) == flat);
        let (a, b) = (held(view@, Some(cdim), view@.ndim), held(view@, cdim2, view@.ndim));
        assert(1 <= a * b) by (nonlinear_arith)
            requires
                a >= 1,
                b >= 1,
        ;
        assert(flat <= outer * flat && outer <= outer * flat) by (nonlinear_arith)
            requires
                outer >= 1,
                flat >= 1,
        ;
        assert(flat * outer == outer * flat) by (nonlinear_arith);
    }
    let k_inner: u64 = view.shape[cdim] as u64;
    let k_second: u64 = match cdim2 {
        Some(d) => view.shape[d] as u64,
        None => 1,
    };
    let k_flat: u64 = k_inner * k_second;
    let outer_kept: u64 = outer_product(view, reduced_mask, cdim, cdim2);
    if k_flat < V2_MIN_KEPT || outer_kept > MAX_GRID_YZ || splits as u64 > MAX_GRID_YZ {
        return None;
    }
    let mut tile: u64 = if k_flat >= 256 {
        256
    } else if k_flat >= 128 {
        128
    } else {
        64
    };
    let t_min: u64 = narrowest(chunk);
    while tile > t_min && grid_size(tile, k_flat, outer_kept, splits) < V2_MIN_WORKGROUPS
        invariant
            k_flat == flat,
            outer_kept == outer,
            k_flat >= 1,
            outer_kept >= 1,
            splits >= 1,
            k_flat * outer_kept * splits <= MAX_WORKGROUPS,
            t_min == narrowest_tile(chunk as int),
            t_min >= 8,
            1 <= tile <= 256,
            fitted_tile(widest_tile(flat), t_min as int, flat, outer, splits as int)
                == fitted_tile(tile as int, t_min as int, flat, outer, splits as int),
        decreases tile,
    {
        tile = tile / 2;
    }
    if grid_size(tile, k_flat, outer_kept, splits) < V2_MIN_WORKGROUPS && k_flat
        < V2_MIN_KEPT_FOR_ANY_GRID {
        return None;
    }
    Some(V2Geometry { cdim, cdim2, tile_cols: tile as u32, outer_kept, k_flat })
}

proof fn lemma_fitted_tile(tile: int, narrowest: int, k_flat: int, outer: int, splits: int)
    requires
        tile >= 1,
    ensures
        1 <= fitted_tile(tile, narrowest, k_flat, outer, splits) <= tile,
    decreases tile,
{
    if tile > narrowest && tile > 1 && v2_groups(tile, k_flat, outer, splits) < V2_MIN_WORKGROUPS {
        lemma_fitted_tile(tile / 2, narrowest, k_flat, outer, splits);
    }
}

/// Where the kept elements of an admitted request lie across the lanes, the
/// workgroups along them cover the lane dimensions, and none lies wholly
/// beyond.
pub proof fn law_lane_tiles_cover_the_span(q: ReduceRequestModel)
    requires
        q.view.valid(),
        q.refusal() is None,
        q.geometry() is Some,
    ensures
        ({
            let g = q.geometry()->0;
            let span = q.view.flat(g.cdim, g.cdim2);
            &&& q.first().groups[0] * q.first().tile_cols >= span
            &&& (q.first().groups[0] - 1) * q.first().tile_cols < span
        }),
{
    let v = q.view;
    let g = q.geometry()->0;
    let span = v.flat(g.cdim, g.cdim2);
    let outer = v.outer(q.mask, g.cdim, g.cdim2, v.ndim);
    lemma_lane_dim(v, q.mask, v.ndim);
    lemma_fold_dim(v, q.mask, g.cdim, v.ndim);
    lemma_outer_times_flat(v, q.mask, g.cdim, g.cdim2, v.ndim);
    assert(v.shape[g.cdim as int] >= 1);
    if g.cdim2 is Some {
        assert(v.shape[g.cdim2->0 as int] >= 1);
    }
    let (a, b) = (held(v, Some(g.cdim), v.ndim), held(v, g.cdim2, v.ndim));
    assert(span == a * b);
    assert(1 <= a * b) by (nonlinear_arith)
        requires
            a >= 1,
            b >= 1,
    ;
    assert(span <= outer * span) by (nonlinear_arith)
        requires
            outer >= 1,
            span >= 1,
    ;
    lemma_fitted_tile(
        widest_tile(span),
        narrowest_tile(q.chunk()),
        span,
        outer,
        q.splits(),
    );
    lemma_ceil_div_covers(g.k_flat as int, g.tile_cols as int);
}

/// The tile widths a workgroup's lanes divide into.
pub open spec fn tile_width(tile: int) -> bool {
    tile == 8 || tile == 16 || tile == 32 || tile == 64 || tile == 128 || tile == 256
}

proof fn lemma_fitted_tile_width(
    tile: int,
    narrowest: int,
    k_flat: int,
    outer: int,
    splits: int,
)
    requires
        tile_width(tile),
        narrowest >= 8,
    ensures
        tile_width(fitted_tile(tile, narrowest, k_flat, outer, splits)),
    decreases tile,
{
    if tile > narrowest && tile > 1 && v2_groups(tile, k_flat, outer, splits) < V2_MIN_WORKGROUPS {
        lemma_fitted_tile_width(tile / 2, narrowest, k_flat, outer, splits);
    }
}

/// Where the kept elements of an admitted request lie across the lanes, the
/// tile is a power of two from 8 to 256 and the grid's second and third
/// extents are ones that every device takes.
pub proof fn law_lane_grid_is_admissible(q: ReduceRequestModel)
    requires
        q.view.valid(),
        q.refusal() is None,
        q.geometry() is Some,
    ensures
        tile_width(q.first().tile_cols as int),
        q.first().groups[1] == q.splits() <= MAX_GRID_YZ,
        q.first().groups[2] == q.geometry()->0.outer_kept <= MAX_GRID_YZ,
{
    let v = q.view;
    let g = q.geometry()->0;
    let outer = v.outer(q.mask, g.cdim, g.cdim2, v.ndim);
    let span = v.flat(g.cdim, g.cdim2);
    lemma_fitted_tile_width(
        widest_tile(span),
        narrowest_tile(q.chunk()),
        span,
        outer,
        q.splits(),
    );
    lemma_lane_dim(v, q.mask, v.ndim);
    lemma_fold_dim(v, q.mask, g.cdim, v.ndim);
    lemma_outer_times_flat(v, q.mask, g.cdim, g.cdim2, v.ndim);
    if q.reduced_count() >= 1 {
        law_splits_cover_the_reduced_elements(q.reduced_count());
    }
}

/// The passes of an admitted request connect: the second reads what the first
/// writes, which is four-byte partial results whatever the request's storage
/// bits say, and the last writes one element per kept index.
pub proof fn law_partial_results_connect_the_passes(q: ReduceRequestModel)
    ensures
        match q.second() {
            Some(second) => {
                &&& second.input_len == q.first().output_len
                &&& q.first().storage == q.storage & 1u32
                &&& q.first().storage & 2u32 == 0
                &&& second.storage == q.storage & 2u32
                &&& second.storage & 1u32 == 0
                &&& second.output_len == q.kept()
            },
            None => {
                &&& q.first().storage == q.storage
                &&& q.first().output_len == q.kept()
            },
        },
{
    let s = q.storage;
    assert((s & 1u32) & 2u32 == 0u32 && (s & 2u32) & 1u32 == 0u32) by (bit_vector);
    assert(q.kept() * 1 == q.kept());
}

/// A reduction plan of one or two passes.
#[derive(Clone, Copy, Debug, PartialEq, Eq)]
pub struct ReducePlan {
    view: ReduceView,
    reduced_mask: u32,
    op: ReduceOp,
    finish: Finish,
    scale: u32,
    capacity: u64,
    allow_v2: bool,
    storage: u32,
    kept_count: u64,
    reduced_count: u64,
    splits: u32,
    first: ReducePass,
    second: Option<ReducePass>,
}

/// The product of the extents the mask marks `marked`, where it is at most
/// `u64::MAX`.
fn marked_product(view: &ReduceView, mask: u32, marked: bool) -> (r: Option<u64>)
    requires
        view@.valid(),
    ensures
        r is Some <==> view@.product(mask, marked, view@.ndim) <= u64::MAX,
        r is Some ==> r->0 == view@.product(mask, marked, view@.ndim),
{
    let mut p: u64 = 1;
    let mut d: usize = 0;
    while d < view.ndim
        invariant
            view@.valid(),
            d <= view.ndim,
            p == view@.product(mask, marked, d as nat),
        decreases view.ndim - d,
    {
        proof {
            lemma_product_step(view@, mask, marked, (d + 1) as nat, view@.ndim);
        }
        if is_reduced(mask, d) == marked {
            p = match p.checked_mul(view.shape[d] as u64) {
                Some(t) => t,
                None => return None,
            };
        }
        d += 1;
    }
    Some(p)
}

impl ReducePlan {
    /// The request the plan answers.
    pub closed spec fn request(&self) -> ReduceRequestModel {
        ReduceRequestModel {
            view: self.view@,
            mask: self.reduced_mask,
            op: self.op,
            finish: self.finish,
            scale: self.scale,
            capacity: self.capacity,
            allow_v2: self.allow_v2,
            storage: self.storage,
        }
    }

    #[verifier::type_invariant]
    spec fn admitted(self) -> bool {
        let q = self.request();
        &&& q.view.valid()
        &&& q.refusal() is None
        &&& self.kept_count == q.kept()
        &&& self.reduced_count == q.reduced_count()
        &&& self.splits == q.splits()
        &&& self.first@ == q.first()
        &&& match self.second {
            Some(p) => q.second() == Some(p@),
            None => q.second() is None,
        }
    }

    /// `reduced_mask` bit `d` set means dimension `d` of `view` is reduced.
    /// `scale` holds the bits of the multiplier for `Finish::Scale`, which must
    /// be finite. `capacity` is the element count of the input buffer.
    pub fn new(
        view: ReduceView,
        reduced_mask: u32,
        op: ReduceOp,
        finish: Finish,
        scale: u32,
        capacity: u64,
    ) -> (r: Result<Self, ReducePlanError>)
        ensures
            ({
                let q = ReduceRequestModel {
                    view: view@,
                    mask: reduced_mask,
                    op,
                    finish,
                    scale,
                    capacity,
                    allow_v2: true,
                    storage: 0,
                };
                match q.refusal() {
                    Some(e) => r == Err::<Self, ReducePlanError>(e),
                    None => r is Ok && r->Ok_0.request() == q,
                }
            }),
    {
        ReducePlan::with_v2(view, reduced_mask, op, finish, scale, capacity, true)
    }

    /// As `new`; where `allow_v2` is false every pass keeps the first kernel.
    pub fn with_v2(
        view: ReduceView,
        reduced_mask: u32,
        op: ReduceOp,
        finish: Finish,
        scale: u32,
        capacity: u64,
        allow_v2: bool,
    ) -> (r: Result<Self, ReducePlanError>)
        ensures
            ({
                let q = ReduceRequestModel {
                    view: view@,
                    mask: reduced_mask,
                    op,
                    finish,
                    scale,
                    capacity,
                    allow_v2,
                    storage: 0,
                };
                match q.refusal() {
                    Some(e) => r == Err::<Self, ReducePlanError>(e),
                    None => r is Ok && r->Ok_0.request() == q,
                }
            }),
    {
        ReducePlan::with_storage(view, reduced_mask, op, finish, scale, capacity, allow_v2, 0)
    }

    /// As `with_v2`, with the caller's storage bits. A one-pass plan takes
    /// both; a two-pass plan takes the input bit on its first pass and the
    /// output bit on its second.
    pub fn with_storage(
        view: ReduceView,
        reduced_mask: u32,
        op: ReduceOp,
        finish: Finish,
        scale: u32,
        capacity: u64,
        allow_v2: bool,
        storage: u32,
    ) -> (r: Result<Self, ReducePlanError>)
        ensures
            ({
                let q = ReduceRequestModel {
                    view: view@,
                    mask: reduced_mask,
                    op,
                    finish,
                    scale,
                    capacity,
                    allow_v2,
                    storage,
                };
                match q.refusal() {
                    Some(e) => r == Err::<Self, ReducePlanError>(e),
                    None => r is Ok && r->Ok_0.request() == q,
                }
            }),
    {
        let ghost q = ReduceRequestModel {
            view: view@,
            mask: reduced_mask,
            op,
            finish,
            scale,
            capacity,
            allow_v2,
            storage,
        };
        proof {
            use_type_invariant(&view);
            lemma_product_step(view@, reduced_mask, false, view@.ndim, view@.ndim);
            lemma_product_step(view@, reduced_mask, true, view@.ndim, view@.ndim);
            law_splits_cover_the_reduced_elements(q.reduced_count());
        }
        if storage & !STORAGE_FLAGS != 0 {
            return Err(ReducePlanError::StorageFlagsOutOfRange);
        }
        if reduced_mask == 0 || reduced_mask >> (view.ndim as u32) != 0 {
            return Err(ReducePlanError::ReducedMaskInvalid);
        }
        if !is_finite(scale) {
            return Err(ReducePlanError::InvalidScale);
        }
        let last: u64 = view.last_address();
        if last >= capacity {
            return Err(ReducePlanError::CapacityTooSmall);
        }
        let kept_count: u64 = match marked_product(&view, reduced_mask, false) {
            Some(p) => p,
            None => return Err(ReducePlanError::TooManyWorkgroups),
        };
        let reduced_count: u64 = match marked_product(&view, reduced_mask, true) {
            Some(p) => p,
            None => {
                proof {
                    lemma_ceil_div_covers(q.reduced_count(), CHUNK as int);
                }
                return Err(ReducePlanError::TooManyWorkgroups);
            },
        };
        let (wide_splits, chunk): (u64, u32) = if reduced_count > CHUNK as u64 {
            (div_ceil_u64(reduced_count, CHUNK as u64), CHUNK)
        } else {
            (1, reduced_count as u32)
        };
        if wide_splits > u32::MAX as u64 || kept_count > u32::MAX as u64 {
            return Err(ReducePlanError::TooManyWorkgroups);
        }
        proof {
            assert(0 <= kept_count * wide_splits <= 0xffff_ffff * 0xffff_ffff) by (nonlinear_arith)
                requires
                    0 <= kept_count <= 0xffff_ffff,
                    0 <= wide_splits <= 0xffff_ffff,
            ;
        }
        let partial_count: u64 = kept_count * wide_splits;
        if partial_count > MAX_WORKGROUPS {
            return Err(ReducePlanError::TooManyWorkgroups);
        }
        let splits: u32 = wide_splits as u32;
        let first_storage: u32 = if splits == 1 {
            storage
        } else {
            storage & FLAG_IN_BF16
        };
        let first_finish: Finish = if splits == 1 {
            finish
        } else {
            Finish::NoFinish
        };
        let words: [u32; 20] = push_words(op, first_finish, &view, reduced_mask, splits, chunk, scale);
        let geometry: Option<V2Geometry> = if allow_v2 {
            select_v2(&view, reduced_mask, splits, chunk)
        } else {
            None
        };
        let first: ReducePass = match geometry {
            Some(g) => {
                let push: [u8; 96] = block(push_words_v2(words, &g));
                let columns: u64 = div_ceil_u64(g.k_flat, g.tile_cols as u64);
                let p = ReducePass {
                    kernel: ReduceKernel::V2,
                    storage: first_storage,
                    push,
                    push_len: PUSH_BYTES_V2,
                    tile_cols: g.tile_cols,
                    groups: [columns as u32, splits, g.outer_kept as u32],
                    input_len: (last + 1) as usize,
                    output_len: partial_count as usize,
                };
                proof {
                    assert(push@.take(96) =~= push@);
                    assert(p@.groups =~= q.first().groups);
                    assert(p@ =~= q.first());
                }
                p
            },
            None => {
                let push: [u8; 96] = short_block(words);
                let p = ReducePass {
                    kernel: ReduceKernel::V1,
                    storage: first_storage,
                    push,
                    push_len: PUSH_BYTES,
                    tile_cols: 0,
                    groups: [partial_count as u32, 1, 1],
                    input_len: (last + 1) as usize,
                    output_len: partial_count as usize,
                };
                proof {
                    assert(p@.groups =~= q.first().groups);
                    assert(p@ =~= q.first());
                }
                p
            },
        };
        let second: Option<ReducePass> = if splits == 1 {
            None
        } else {
            let extents: [u32; 2] = [kept_count as u32, splits];
            let strides: [u32; 2] = [splits, 1];
            proof {
                let m = described(extents@, strides@, 0);
                assert(extents@ =~= seq![kept_count as u32, splits]);
                assert(strides@ =~= seq![splits, 1u32]);
                assert(m == q.partials());
                assert(!extents@.contains(0)) by {
                    if extents@.contains(0) {
                        let i = choose|i: int| 0 <= i < extents@.len() && extents@[i] == 0;
                        assert(i == 0 || i == 1);
                    }
                }
                reveal_with_fuel(ReduceViewModel::span, 3);
                assert(m.span(2) == (kept_count - 1) * splits + (splits - 1) * 1);
                assert((kept_count - 1) * splits == kept_count * splits - splits)
                    by (nonlinear_arith);
                assert(m.last() < MAX_ADDRESS);
            }
            let partial: ReduceView = match ReduceView::new(&extents, &strides, 0) {
                Ok(v) => v,
                Err(e) => return Err(e),
            };
            let combine: ReduceOp = match op {
                ReduceOp::Amax => ReduceOp::Amax,
                _ => ReduceOp::Sum,
            };
            let push: [u8; 96] = short_block(
                push_words(combine, finish, &partial, 2, 1, splits, scale),
            );
            let p = ReducePass {
                kernel: ReduceKernel::V1,
                storage: storage & FLAG_OUT_BF16,
                push,
                push_len: PUSH_BYTES,
                tile_cols: 0,
                groups: [kept_count as u32, 1, 1],
                input_len: partial_count as usize,
                output_len: kept_count as usize,
            };
            proof {
                assert(p@.groups =~= q.second()->0.groups);
                assert(p@ =~= q.second()->0);
            }
            Some(p)
        };
        Ok(
            ReducePlan {
                view,
                reduced_mask,
                op,
                finish,
                scale,
                capacity,
                allow_v2,
                storage,
                kept_count,
                reduced_count,
                splits,
                first,
                second,
            },
        )
    }

    pub fn view(&self) -> (r: &ReduceView)
        ensures
            r@ == self.request().view,
    {
        &self.view
    }

    pub fn reduced_mask(&self) -> (r: u32)
        ensures
            r == self.request().mask,
    {
        self.reduced_mask
    }

    pub fn op(&self) -> (r: ReduceOp)
        ensures
            r == self.request().op,
    {
        self.op
    }

    pub fn finish(&self) -> (r: Finish)
        ensures
            r == self.request().finish,
    {
        self.finish
    }

    /// The bits of the finishing multiplier.
    pub fn scale(&self) -> (r: u32)
        ensures
            r == self.request().scale,
    {
        self.scale
    }

    pub fn kept_count(&self) -> (r: u64)
        ensures
            r == self.request().kept(),
    {
        proof {
            use_type_invariant(self);
        }
        self.kept_count
    }

    pub fn reduced_count(&self) -> (r: u64)
        ensures
            r == self.request().reduced_count(),
    {
        proof {
            use_type_invariant(self);
        }
        self.reduced_count
    }

    pub fn splits(&self) -> (r: u32)
        ensures
            r == self.request().splits(),
    {
        proof {
            use_type_invariant(self);
        }
        self.splits
    }

    /// The first dispatch.
    pub fn first(&self) -> (r: &ReducePass)
        ensures
            r@ == self.request().first(),
    {
        proof {
            use_type_invariant(self);
        }
        &self.first
    }

    /// The second dispatch, over the partial results, where there are splits.
    pub fn second(&self) -> (r: Option<&ReducePass>)
        ensures
            match r {
                Some(p) => self.request().second() == Some(p@),
                None => self.request().second() is None,
            },
    {
        proof {
            use_type_invariant(self);
        }
        match &self.second {
            Some(p) => Some(p),
            None => None,
        }
    }

    /// Element count of the finished output: one per kept index.
    pub fn output_len(&self) -> (r: usize)
        ensures
            r == self.request().kept(),
    {
        proof {
            use_type_invariant(self);
        }
        self.kept_count as usize
    }

    /// The address of the element with kept index `kept` and reduced index
    /// `reduced_index`, both in row-major order of their dimensions.
    pub fn address(&self, kept: u64, reduced_index: u64) -> (r: u64)
        ensures
            r == self.request().view.address(
                self.request().mask,
                kept as int,
                reduced_index as int,
            ),
            r < self.request().first().input_len,
    {
        proof {
            use_type_invariant(self);
            law_every_address_is_inside_the_view(
                self.view@,
                self.reduced_mask,
                kept as int,
                reduced_index as int,
            );
        }
        let base: u64 = walk(&self.view, self.reduced_mask, false, kept);
        let inner: u64 = walk(&self.view, self.reduced_mask, true, reduced_index);
        proof {
            lemma_walk_bounds(
                self.view@,
                self.reduced_mask,
                kept as int,
                reduced_index as int,
                self.view@.ndim,
            );
        }
        self.view.offset as u64 + base + inner
    }
}

/// Where an index into one side of the dimensions leads.
fn walk(view: &ReduceView, mask: u32, marked: bool, index: u64) -> (r: u64)
    requires
        view@.valid(),
    ensures
        r == view@.walk(mask, marked, index as int, view@.ndim),
{
    let mut sum: u64 = 0;
    let mut rem: u64 = index;
    let mut d: usize = view.ndim;
    proof {
        lemma_walk_bounds(view@, mask, index as int, index as int, view@.ndim);
    }
    while d > 0
        invariant
            view@.valid(),
            d <= view.ndim,
            sum + view@.walk(mask, marked, rem as int, d as nat) == view@.walk(
                mask,
                marked,
                index as int,
                view@.ndim,
            ),
            view@.walk(mask, marked, index as int, view@.ndim) < MAX_ADDRESS,
        decreases d,
    {
        d -= 1;
        if is_reduced(mask, d) == marked {
            let n: u64 = view.shape[d] as u64;
            proof {
                assert(view@.shape[d as int] >= 1);
                lemma_walk_bounds(view@, mask, rem as int / n as int, rem as int / n as int, d as nat);
                let t = view@.stride[d as int] as int;
                let digit = rem as int % n as int;
                assert(0 <= digit * t) by (nonlinear_arith)
                    requires
                        digit >= 0,
                        t >= 0,
                ;
            }
            sum = sum + (rem % n) * (view.stride[d] as u64);
            rem = rem / n;
        }
    }
    sum
}

/// Bit `d` of a mask, counted from the lowest, says whether dimension `d` is
/// reduced.
pub proof fn law_mask_bits_mark_dimensions(mask: u32)
    ensures
        reduced(mask, 0) <==> mask % 2 == 1,
        reduced(mask, 1) <==> (mask / 2) % 2 == 1,
        reduced(mask, 2) <==> (mask / 4) % 2 == 1,
        reduced(mask, 3) <==> (mask / 8) % 2 == 1,
        reduced(mask, 4) <==> (mask / 16) % 2 == 1,
        reduced(mask, 5) <==> (mask / 32) % 2 == 1,
{
    assert((mask & (1u32 << 0u32) != 0 <==> mask % 2 == 1) && (mask & (1u32 << 1u32) != 0 <==> (mask
        / 2) % 2 == 1) && (mask & (1u32 << 2u32) != 0 <==> (mask / 4) % 2 == 1) && (mask & (1u32
        << 3u32) != 0 <==> (mask / 8) % 2 == 1) && (mask & (1u32 << 4u32) != 0 <==> (mask / 16) % 2
        == 1) && (mask & (1u32 << 5u32) != 0 <==> (mask / 32) % 2 == 1)) by (bit_vector);
}

/// A described view has the given extents and strides in its first dimensions,
/// and extent one without a step in the others.
pub proof fn law_described_view_is_padded(shape: Seq<u32>, stride: Seq<u32>, offset: u32, d: int)
    requires
        0 <= d < 6,
        stride.len() == shape.len(),
    ensures
        ({
            let v = described(shape, stride, offset);
            &&& v.offset == offset
            &&& v.ndim == shape.len()
            &&& v.shape.len() == 6 && v.stride.len() == 6
            &&& d < shape.len() ==> v.shape[d] == shape[d] && v.stride[d] == stride[d]
            &&& d >= shape.len() ==> v.shape[d] == 1 && v.stride[d] == 0
        }),
{
}

/// Coordinates lead as far as the sum of each place times its stride, and the
/// last address is the farthest corner's.
pub proof fn law_displacement_is_counted_in_strides(v: ReduceViewModel, c: Seq<int>)
    requires
        v.valid(),
        c.len() == 6,
    ensures
        v.displacement(c, v.ndim) == c[0] * v.stride[0] + c[1] * v.stride[1] + c[2] * v.stride[2]
            + c[3] * v.stride[3] + c[4] * v.stride[4] + c[5] * v.stride[5],
        v.last() == v.offset + (v.shape[0] - 1) * v.stride[0] + (v.shape[1] - 1) * v.stride[1] + (
        v.shape[2] - 1) * v.stride[2] + (v.shape[3] - 1) * v.stride[3] + (v.shape[4] - 1)
            * v.stride[4] + (v.shape[5] - 1) * v.stride[5],
{
    reveal_with_fuel(ReduceViewModel::displacement, 7);
    reveal_with_fuel(ReduceViewModel::span, 7);
    assert forall|d: int| v.ndim <= d < 6 implies c[d] * #[trigger] v.stride[d] == 0 && (v.shape[d]
        - 1) * v.stride[d] == 0 by {
        assert(v.stride[d] == 0);
    }
    let n = v.ndim;
    assert(n == 1 || n == 2 || n == 3 || n == 4 || n == 5 || n == 6);
}

/// The kept elements are the product of the extents that are not reduced, the
/// reduced ones that of those that are.
pub proof fn law_counts_are_products_of_extents(v: ReduceViewModel, mask: u32)
    requires
        v.valid(),
    ensures
        ({
            let e = |d: int, marked: bool|
                if reduced(mask, d) == marked {
                    v.shape[d] as int
                } else {
                    1
                };
            &&& v.kept(mask) == e(0, false) * e(1, false) * e(2, false) * e(3, false) * e(4, false)
                * e(5, false)
            &&& v.reduced_elements(mask) == e(0, true) * e(1, true) * e(2, true) * e(3, true) * e(
                4,
                true,
            ) * e(5, true)
        }),
{
    lemma_product_of_extents(v, mask, false);
    lemma_product_of_extents(v, mask, true);
}

proof fn lemma_product_of_extents(v: ReduceViewModel, mask: u32, marked: bool)
    requires
        v.valid(),
    ensures
        ({
            let e = |d: int|
                if reduced(mask, d) == marked {
                    v.shape[d] as int
                } else {
                    1
                };
            v.product(mask, marked, v.ndim) == e(0) * e(1) * e(2) * e(3) * e(4) * e(5)
        }),
{
    let e = |d: int|
        if reduced(mask, d) == marked {
            v.shape[d] as int
        } else {
            1
        };
    assert forall|d: nat| d < 6 implies #[trigger] v.product(mask, marked, d + 1) == v.product(
        mask,
        marked,
        d,
    ) * e(d as int) by {
        assert(v.product(mask, marked, d) * 1 == v.product(mask, marked, d)) by (nonlinear_arith);
    }
    let p1 = e(0);
    let p2 = p1 * e(1);
    let p3 = p2 * e(2);
    let p4 = p3 * e(3);
    let p5 = p4 * e(4);
    let p6 = p5 * e(5);
    assert(v.product(mask, marked, 0) == 1);
    assert(v.product(mask, marked, 0 + 1) == 1 * e(0));
    assert(v.product(mask, marked, 1 + 1) == p2);
    assert(v.product(mask, marked, 2 + 1) == p3);
    assert(v.product(mask, marked, 3 + 1) == p4);
    assert(v.product(mask, marked, 4 + 1) == p5);
    assert(v.product(mask, marked, 5 + 1) == p6);
    assert forall|d: int| v.ndim <= d < 6 implies #[trigger] e(d) == 1 by {
        assert(v.shape[d] == 1);
    }
    assert(p1 * 1 == p1 && p2 * 1 == p2 && p3 * 1 == p3 && p4 * 1 == p4 && p5 * 1 == p5)
        by (nonlinear_arith);
    let n = v.ndim;
    assert(n == 1 || n == 2 || n == 3 || n == 4 || n == 5 || n == 6);
}

/// The operations and the finishes are numbered from 0, and partial maxima are
/// combined by their maximum, sums and sums of squares by adding.
pub proof fn law_operations_are_numbered(op: ReduceOp, finish: Finish)
    ensures
        op is Sum <==> op.word() == 0,
        op is Amax <==> op.word() == 1,
        op is SumOfSquares <==> op.word() == 2,
        op.word() <= 2,
        finish is NoFinish <==> finish.word() == 0,
        finish is Scale <==> finish.word() == 1,
        finish is Sqrt <==> finish.word() == 2,
        finish.word() <= 2,
        op is Amax ==> op.combined_by() is Amax,
        !(op is Amax) ==> op.combined_by() is Sum,
{
}

/// The first twenty words of a pass's block, each in its place.
pub proof fn law_pass_block_holds_the_pass(
    op: ReduceOp,
    finish: Finish,
    v: ReduceViewModel,
    mask: u32,
    splits: u32,
    chunk: u32,
    scale: u32,
    more: Seq<u32>,
)
    requires
        v.valid(),
    ensures
        ({
            let w = words_bytes(pass_words(op, finish, v, mask, splits, chunk, scale) + more);
            &&& w.len() == 80 + 4 * more.len()
            &&& word_at(w, 0) == op.word()
            &&& word_at(w, 1) == finish.word()
            &&& word_at(w, 2) == v.ndim
            &&& word_at(w, 3) == mask
            &&& word_at(w, 4) == v.shape[0]
            &&& word_at(w, 5) == v.shape[1]
            &&& word_at(w, 6) == v.shape[2]
            &&& word_at(w, 7) == v.shape[3]
            &&& word_at(w, 8) == v.shape[4]
            &&& word_at(w, 9) == v.shape[5]
            &&& word_at(w, 10) == v.stride[0]
            &&& word_at(w, 11) == v.stride[1]
            &&& word_at(w, 12) == v.stride[2]
            &&& word_at(w, 13) == v.stride[3]
            &&& word_at(w, 14) == v.stride[4]
            &&& word_at(w, 15) == v.stride[5]
            &&& word_at(w, 16) == v.offset
            &&& word_at(w, 17) == splits
            &&& word_at(w, 18) == chunk
            &&& word_at(w, 19) == scale
            &&& forall|i: int|
                20 <= i < 20 + more.len() ==> #[trigger] word_at(w, i) == more[i - 20]
        }),
{
    let words = pass_words(op, finish, v, mask, splits, chunk, scale) + more;
    law_words_read_back(words);
    assert(words.len() == 20 + more.len());
    assert forall|d: int| 0 <= d < 6 implies #[trigger] v.shape[d] == words[4 + d] by {}
    assert forall|d: int| 0 <= d < 6 implies #[trigger] v.stride[d] == words[10 + d] by {}
    assert forall|i: int| 0 <= i < more.len() implies #[trigger] more[i] == words[20 + i] by {}
    assert(words[0] == op.word() && words[1] == finish.word() && words[2] == v.ndim as u32
        && words[3] == mask);
    assert(words[16] == v.offset && words[17] == splits && words[18] == chunk && words[19] == scale);
}

/// The block of an admitted request's first pass: the operation and the view
/// under its mask, the ranges that cover the reduced elements, and the scale; the
/// finish is the request's where no pass follows, else none.
pub proof fn law_first_pass_holds_the_request(q: ReduceRequestModel)
    requires
        q.view.valid(),
        q.refusal() is None,
    ensures
        ({
            let w = q.first().push;
            &&& q.op is Sum <==> word_at(w, 0) == 0
            &&& q.op is Amax <==> word_at(w, 0) == 1
            &&& q.op is SumOfSquares <==> word_at(w, 0) == 2
            &&& q.second() is Some ==> word_at(w, 1) == 0
            &&& q.second() is None ==> word_at(w, 1) == q.finish.word()
            &&& word_at(w, 2) == q.view.ndim
            &&& word_at(w, 3) == q.mask
            &&& word_at(w, 4) == q.view.shape[0]
            &&& word_at(w, 5) == q.view.shape[1]
            &&& word_at(w, 6) == q.view.shape[2]
            &&& word_at(w, 7) == q.view.shape[3]
            &&& word_at(w, 8) == q.view.shape[4]
            &&& word_at(w, 9) == q.view.shape[5]
            &&& word_at(w, 10) == q.view.stride[0]
            &&& word_at(w, 11) == q.view.stride[1]
            &&& word_at(w, 12) == q.view.stride[2]
            &&& word_at(w, 13) == q.view.stride[3]
            &&& word_at(w, 14) == q.view.stride[4]
            &&& word_at(w, 15) == q.view.stride[5]
            &&& word_at(w, 16) == q.view.offset
            &&& word_at(w, 17) >= 1
            &&& 1 <= word_at(w, 18) <= 65536
            &&& word_at(w, 17) * word_at(w, 18) >= q.view.reduced_elements(q.mask)
            &&& (word_at(w, 17) - 1) * word_at(w, 18) < q.view.reduced_elements(q.mask)
            &&& word_at(w, 17) > 1 ==> word_at(w, 18) == 65536
            &&& word_at(w, 17) == 1 ==> word_at(w, 18) == q.view.reduced_elements(q.mask)
            &&& q.second() is Some <==> word_at(w, 17) > 1
            &&& word_at(w, 19) == q.scale
            &&& q.first().kernel is V1 ==> w.len() == 80
            &&& q.first().kernel is V2 ==> w.len() == 96 && q.geometry() is Some
            &&& q.geometry() matches Some(g) ==> w.len() == 96 && word_at(w, 20) == g.cdim
                && word_at(w, 21) == (match g.cdim2 {
                Some(d) => d as int,
                None => 0xffff_ffff,
            }) && word_at(w, 22) == g.tile_cols && word_at(w, 23) == g.outer_kept
            &&& q.geometry() is None ==> w.len() == 80
        }),
{
    let more = match q.geometry() {
        Some(g) => geometry_words(g),
        None => Seq::empty(),
    };
    let words = pass_words(
        q.op,
        q.first_finish(),
        q.view,
        q.mask,
        q.splits() as u32,
        q.chunk() as u32,
        q.scale,
    );
    lemma_product_step(q.view, q.mask, true, q.view.ndim, q.view.ndim);
    law_splits_cover_the_reduced_elements(q.reduced_count());
    law_operations_are_numbered(q.op, q.finish);
    if q.geometry() is None {
        assert(words + more =~= words);
    }
    law_pass_block_holds_the_pass(
        q.op,
        q.first_finish(),
        q.view,
        q.mask,
        q.splits() as u32,
        q.chunk() as u32,
        q.scale,
        more,
    );
    let w = q.first().push;
    assert(w == words_bytes(words + more));
    if q.reduced_count() > CHUNK {
        lemma_ceil_div_covers(q.reduced_count(), CHUNK as int);
        assert(q.splits() > 1) by (nonlinear_arith)
            requires
                q.splits() * 65536 >= q.reduced_count(),
                q.reduced_count() > 65536,
        ;
    }
    if let Some(g) = q.geometry() {
        lemma_lane_dim(q.view, q.mask, q.view.ndim);
        lemma_fold_dim(q.view, q.mask, g.cdim, q.view.ndim);
        lemma_outer_monotone(q.view, q.mask, g.cdim, g.cdim2, q.view.ndim, q.view.ndim);
    }
}

/// The block of a second pass: the partial results of each kept element, one per
/// range, lie together, and are combined over the second dimension in one range
/// with the request's finish and scale.
pub proof fn law_second_pass_combines_the_partial_results(q: ReduceRequestModel)
    requires
        q.view.valid(),
        q.refusal() is None,
        q.second() is Some,
    ensures
        ({
            let w = q.second()->0.push;
            let ranges = word_at(q.first().push, 17);
            &&& w.len() == 80
            &&& q.second()->0.kernel is V1
            &&& q.op is Amax <==> word_at(w, 0) == 1
            &&& !(q.op is Amax) <==> word_at(w, 0) == 0
            &&& word_at(w, 1) == q.finish.word()
            &&& word_at(w, 2) == 2
            &&& word_at(w, 3) == 2
            &&& word_at(w, 4) == q.view.kept(q.mask)
            &&& word_at(w, 5) == ranges
            &&& word_at(w, 6) == 1 && word_at(w, 7) == 1 && word_at(w, 8) == 1 && word_at(w, 9) == 1
            &&& word_at(w, 10) == ranges
            &&& word_at(w, 11) == 1
            &&& word_at(w, 12) == 0 && word_at(w, 13) == 0 && word_at(w, 14) == 0 && word_at(w, 15)
                == 0
            &&& word_at(w, 16) == 0
            &&& word_at(w, 17) == 1
            &&& word_at(w, 18) == ranges
            &&& word_at(w, 19) == q.scale
        }),
{
    law_first_pass_holds_the_request(q);
    lemma_product_step(q.view, q.mask, false, q.view.ndim, q.view.ndim);
    lemma_product_step(q.view, q.mask, true, q.view.ndim, q.view.ndim);
    law_splits_cover_the_reduced_elements(q.reduced_count());
    law_operations_are_numbered(q.op, q.finish);
    let p = q.partials();
    let (k, n) = (q.kept(), q.splits());
    reveal_with_fuel(ReduceViewModel::span, 3);
    assert(p.span(2) == (k - 1) * n + (n - 1) * 1);
    assert((k - 1) * n == k * n - n) by (nonlinear_arith);
    assert(p.valid());
    let words = pass_words(q.op.combined_by(), q.finish, p, 2, 1, n as u32, q.scale);
    assert(words + Seq::<u32>::empty() =~= words);
    law_pass_block_holds_the_pass(
        q.op.combined_by(),
        q.finish,
        p,
        2,
        1,
        n as u32,
        q.scale,
        Seq::empty(),
    );
    let w = q.second()->0.push;
    assert(w == words_bytes(words));
    law_operations_are_numbered(q.op.combined_by(), q.finish);
}

/// The pass that finishes an admitted request, the only one or the second,
/// carries the request's finish and its scale; a first pass that another follows
/// does not finish.
pub proof fn law_finish_and_scale_reach_the_last_pass(q: ReduceRequestModel)
    requires
        q.view.valid(),
        q.refusal() is None,
    ensures
        ({
            let last = match q.second() {
                Some(second) => second,
                None => q.first(),
            };
            &&& word_at(last.push, 19) == q.scale
            &&& q.finish is NoFinish <==> word_at(last.push, 1) == 0
            &&& q.finish is Scale <==> word_at(last.push, 1) == 1
            &&& q.finish is Sqrt <==> word_at(last.push, 1) == 2
            &&& q.second() is Some ==> word_at(q.first().push, 1) == 0
            &&& last.output_len == q.view.kept(q.mask)
        }),
{
    law_first_pass_holds_the_request(q);
    law_partial_results_connect_the_passes(q);
    if q.second() is Some {
        law_second_pass_combines_the_partial_results(q);
    }
}

/// Without lanes, a first pass has a workgroup for every kept element and range;
/// a second pass has one for every kept element. A first pass reads through the
/// view's last address and writes one value per kept element and range.
pub proof fn law_passes_have_a_workgroup_per_result(q: ReduceRequestModel)
    requires
        q.view.valid(),
        q.refusal() is None,
    ensures
        ({
            let ranges = word_at(q.first().push, 17);
            &&& q.first().kernel is V1 ==> q.first().groups == seq![
                (q.view.kept(q.mask) * ranges) as u32,
                1u32,
                1u32,
            ]
            &&& 1 <= q.view.kept(q.mask) * ranges <= 2147483648
            &&& q.first().input_len == q.view.last() + 1
            &&& q.first().output_len == q.view.kept(q.mask) * ranges
            &&& q.second() matches Some(second) ==> second.groups == seq![
                q.view.kept(q.mask) as u32,
                1u32,
                1u32,
            ] && second.input_len == q.view.kept(q.mask) * ranges && second.output_len
                == q.view.kept(q.mask)
        }),
{
    law_first_pass_holds_the_request(q);
    lemma_product_step(q.view, q.mask, false, q.view.ndim, q.view.ndim);
    lemma_product_step(q.view, q.mask, true, q.view.ndim, q.view.ndim);
    law_splits_cover_the_reduced_elements(q.reduced_count());
    law_pass_block_holds_the_pass(
        q.op,
        q.first_finish(),
        q.view,
        q.mask,
        q.splits() as u32,
        q.chunk() as u32,
        q.scale,
        match q.geometry() {
            Some(g) => geometry_words(g),
            None => Seq::empty(),
        },
    );
    let words = pass_words(
        q.op,
        q.first_finish(),
        q.view,
        q.mask,
        q.splits() as u32,
        q.chunk() as u32,
        q.scale,
    );
    assert(words + Seq::<u32>::empty() =~= words);
    let (k, n) = (q.kept(), q.splits());
    assert(1 <= k * n) by (nonlinear_arith)
        requires
            k >= 1,
            n >= 1,
    ;
}

/// The lane dimension is the highest kept one with unit stride and more than one
/// element.
pub proof fn law_lane_dimension_is_the_highest(v: ReduceViewModel, mask: u32, n: nat, d: int)
    requires
        n <= 6,
        0 <= d < n,
    ensures
        v.lane_dim(mask, n) matches Some(c) ==> c < n && !reduced(mask, c as int)
            && v.stride[c as int] == 1 && v.shape[c as int] > 1,
        v.lane_dim(mask, n) is Some && d > v.lane_dim(mask, n)->0 ==> reduced(mask, d)
            || v.stride[d] != 1 || v.shape[d] <= 1,
        v.lane_dim(mask, n) is None ==> reduced(mask, d) || v.stride[d] != 1 || v.shape[d] <= 1,
    decreases n,
{
    lemma_lane_dim(v, mask, n);
    if d < n - 1 {
        law_lane_dimension_is_the_highest(v, mask, (n - 1) as nat, d);
    }
}

/// The folded dimension is the highest other kept one, of more than one element,
/// whose stride is the lane dimension's extent.
pub proof fn law_folded_dimension_is_the_highest(
    v: ReduceViewModel,
    mask: u32,
    c: usize,
    n: nat,
    d: int,
)
    requires
        n <= 6,
        0 <= d < n,
    ensures
        v.fold_dim(mask, c, n) matches Some(f) ==> f < n && f != c && !reduced(mask, f as int)
            && v.shape[f as int] > 1 && v.stride[f as int] == v.shape[c as int],
        (v.fold_dim(mask, c, n) is None || d > v.fold_dim(mask, c, n)->0) && d != c && !reduced(
            mask,
            d,
        ) && v.shape[d] > 1 ==> v.stride[d] != v.shape[c as int],
    decreases n,
{
    if n > 1 {
        law_folded_dimension_is_the_highest(
            v,
            mask,
            c,
            (n - 1) as nat,
            if d < n - 1 {
                d
            } else {
                0
            },
        );
    } else {
        assert(v.fold_dim(mask, c, 0) is None);
    }
}

/// The lane dimensions' elements times the other kept ones' are the kept
/// elements.
pub proof fn law_lanes_and_outer_are_the_kept_elements(q: ReduceRequestModel)
    requires
        q.view.valid(),
        q.refusal() is None,
        q.geometry() is Some,
    ensures
        ({
            let g = q.geometry()->0;
            &&& g.cdim2 is None ==> g.k_flat == q.view.shape[g.cdim as int]
            &&& g.cdim2 matches Some(d) ==> g.k_flat == q.view.shape[g.cdim as int]
                * q.view.shape[d as int]
            &&& g.k_flat * g.outer_kept == q.view.kept(q.mask)
        }),
{
    let v = q.view;
    let g = q.geometry()->0;
    let flat = v.flat(g.cdim, g.cdim2);
    let outer = v.outer(q.mask, g.cdim, g.cdim2, v.ndim);
    lemma_lane_dim(v, q.mask, v.ndim);
    lemma_fold_dim(v, q.mask, g.cdim, v.ndim);
    lemma_outer_times_flat(v, q.mask, g.cdim, g.cdim2, v.ndim);
    assert(v.shape[g.cdim as int] >= 1);
    if g.cdim2 is Some {
        assert(v.shape[g.cdim2->0 as int] >= 1);
    }
    let (a, b) = (held(v, Some(g.cdim), v.ndim), held(v, g.cdim2, v.ndim));
    assert(flat == a * b);
    assert(1 <= a * b) by (nonlinear_arith)
        requires
            a >= 1,
            b >= 1,
    ;
    assert(flat <= outer * flat && outer <= outer * flat) by (nonlinear_arith)
        requires
            outer >= 1,
            flat >= 1,
    ;
    assert(flat * outer == outer * flat) by (nonlinear_arith);
    if g.cdim2 is None {
        assert(v.shape[g.cdim as int] * 1 == v.shape[g.cdim as int]);
    }
}

/// The tile starts as wide as the lanes and the span allow and is halved only
/// while the grid is too small, down to the width at which every row lane of a
/// workgroup has a row.
pub proof fn law_tile_is_the_widest_that_fills_the_grid(
    k_flat: int,
    chunk: int,
    outer: int,
    splits: int,
)
    requires
        k_flat >= 64,
        chunk >= 1,
    ensures
        ({
            let tile = fitted_tile(widest_tile(k_flat), narrowest_tile(chunk), k_flat, outer, splits);
            &&& widest_tile(k_flat) <= k_flat
            &&& widest_tile(k_flat) == 256 || 2 * widest_tile(k_flat) > k_flat
            &&& narrowest_tile(chunk) >= 256int / chunk
            &&& narrowest_tile(chunk) == 8 || narrowest_tile(chunk) < 2 * (256int / chunk)
            &&& tile_width(tile) && tile_width(narrowest_tile(chunk))
            &&& tile > narrowest_tile(chunk) ==> v2_groups(tile, k_flat, outer, splits) >= 32
            &&& tile <= widest_tile(k_flat)
            &&& tile < widest_tile(k_flat) ==> v2_groups(2 * tile, k_flat, outer, splits) < 32
        }),
{
    vstd::arithmetic::div_mod::lemma_div_is_ordered_by_denominator(256, 1, chunk);
    assert(256int / 1 == 256);
    lemma_fitted_tile_width(widest_tile(k_flat), narrowest_tile(chunk), k_flat, outer, splits);
    lemma_fitted_tile_is_widest(widest_tile(k_flat), narrowest_tile(chunk), k_flat, outer, splits);
}

proof fn lemma_fitted_tile_is_widest(
    tile: int,
    narrowest: int,
    k_flat: int,
    outer: int,
    splits: int,
)
    requires
        tile_width(tile),
        narrowest >= 8,
    ensures
        ({
            let t = fitted_tile(tile, narrowest, k_flat, outer, splits);
            &&& t > narrowest ==> v2_groups(t, k_flat, outer, splits) >= 32
            &&& t <= tile
            &&& t < tile ==> v2_groups(2 * t, k_flat, outer, splits) < 32
        }),
    decreases tile,
{
    if tile > narrowest && tile > 1 && v2_groups(tile, k_flat, outer, splits) < V2_MIN_WORKGROUPS {
        lemma_fitted_tile_is_widest(tile / 2, narrowest, k_flat, outer, splits);
    }
}

/// The kept elements of a request lie across the lanes exactly where the request
/// allows it, no reduced dimension owns the unit stride and a kept one does, at
/// least 64 elements lie along the lanes, the grid's other extents are at most
/// 65535, and the grid has 32 workgroups or the lanes 4096 elements.
pub proof fn law_lanes_are_used_exactly_where_they_pay(q: ReduceRequestModel)
    requires
        q.view.valid(),
        q.refusal() is None,
    ensures
        ({
            let v = q.view;
            let lane = v.lane_dim(q.mask, v.ndim);
            let c = lane->0;
            let c2 = v.fold_dim(q.mask, c, v.ndim);
            let flat = v.flat(c, c2);
            let outer = v.outer(q.mask, c, c2, v.ndim);
            let tile = fitted_tile(
                widest_tile(flat),
                narrowest_tile(q.chunk()),
                flat,
                outer,
                q.splits(),
            );
            &&& q.geometry() is Some <==> {
                &&& q.allow_v2
                &&& forall|d: int|
                    0 <= d < v.ndim && reduced(q.mask, d) ==> #[trigger] v.stride[d] != 1
                        || v.shape[d] <= 1
                &&& lane is Some
                &&& flat >= 64
                &&& outer <= 65535
                &&& q.splits() <= 65535
                &&& ceil_div(flat, tile) * outer * q.splits() >= 32 || flat >= 4096
            }
            &&& q.geometry() matches Some(g) ==> Some(g.cdim) == lane && g.cdim2 == c2
            &&& q.first().kernel is V2 <==> q.geometry() is Some
            &&& q.geometry() is None ==> q.first().tile_cols == 0
        }),
{
    let v = q.view;
    if v.reduced_unit(q.mask) {
        let d = choose|d: int| 0 <= d < v.ndim && reduced(q.mask, d) && #[trigger] v.unit(d);
        assert(v.stride[d] == 1 && v.shape[d] > 1);
    } else {
        assert forall|d: int| 0 <= d < v.ndim && reduced(q.mask, d) implies #[trigger] v.stride[d]
            != 1 || v.shape[d] <= 1 by {
            assert(!v.unit(d));
        }
    }
}

/// A view is admitted exactly with one to six dimensions, as many strides, no
/// empty extent, and a last address below 2^31.
pub proof fn law_views_are_admitted_exactly_when_addressable(
    shape: Seq<u32>,
    stride: Seq<u32>,
    offset: u32,
)
    ensures
        ({
            let ranked = 1 <= shape.len() <= 6 && stride.len() == shape.len();
            let full = forall|d: int| 0 <= d < shape.len() ==> #[trigger] shape[d] > 0;
            let low = described(shape, stride, offset).last() < 2147483648;
            &&& view_refusal(shape, stride, offset) is None <==> ranked && full && low
            &&& view_refusal(shape, stride, offset) == Some(ReducePlanError::RankOutOfRange)
                <==> !ranked
            &&& view_refusal(shape, stride, offset) == Some(ReducePlanError::ZeroExtent) <==> ranked
                && !full
            &&& view_refusal(shape, stride, offset) == Some(ReducePlanError::AddressOutOfRange)
                <==> ranked && full && !low
        }),
{
    if shape.contains(0) {
        let d = choose|d: int| 0 <= d < shape.len() && shape[d] == 0;
        assert(!(shape[d] > 0));
    } else {
        assert forall|d: int| 0 <= d < shape.len() implies #[trigger] shape[d] > 0 by {
            assert(shape.contains(shape[d]));
        }
    }
}

/// A request is admitted exactly with known storage bits, a mask that marks some
/// of its dimensions and nothing else, a finite scale, every address inside the
/// buffer, and no more than 2^31 results of its first pass.
pub proof fn law_requests_are_admitted_exactly_when_they_fit(q: ReduceRequestModel)
    requires
        q.view.valid(),
    ensures
        ({
            let marked = q.mask != 0 && q.mask >> (q.view.ndim as u32) == 0;
            let inside = q.view.last() < q.capacity;
            let few = q.splits() <= 0xffff_ffff && q.kept() <= 0xffff_ffff && q.kept() * q.splits()
                <= 2147483648;
            &&& q.refusal() is None <==> q.storage <= 3 && marked && finite(q.scale) && inside && few
            &&& q.refusal() == Some(ReducePlanError::StorageFlagsOutOfRange) <==> q.storage > 3
            &&& q.refusal() == Some(ReducePlanError::ReducedMaskInvalid) <==> q.storage <= 3
                && !marked
            &&& q.refusal() == Some(ReducePlanError::InvalidScale) <==> q.storage <= 3 && marked
                && !finite(q.scale)
            &&& q.refusal() == Some(ReducePlanError::CapacityTooSmall) <==> q.storage <= 3 && marked
                && finite(q.scale) && !inside
            &&& q.refusal() == Some(ReducePlanError::TooManyWorkgroups) <==> q.storage <= 3 && marked
                && finite(q.scale) && inside && !few
        }),
{
    let s = q.storage;
    assert(s & !3u32 == 0 <==> s <= 3) by (bit_vector);
}

/// Each refusal of a plan has its own name.
pub proof fn law_plan_errors_are_named()
    ensures
        ReducePlanError::RankOutOfRange.text() == "reduce-rank-out-of-range"@,
        ReducePlanError::ZeroExtent.text() == "reduce-zero-extent"@,
        ReducePlanError::AddressOutOfRange.text() == "reduce-address-out-of-range"@,
        ReducePlanError::ReducedMaskInvalid.text() == "reduce-reduced-mask-invalid"@,
        ReducePlanError::InvalidScale.text() == "reduce-invalid-scale"@,
        ReducePlanError::TooManyWorkgroups.text() == "reduce-too-many-workgroups"@,
        ReducePlanError::CapacityTooSmall.text() == "reduce-capacity-too-small"@,
        ReducePlanError::StorageFlagsOutOfRange.text() == "reduce-storage-flags-out-of-range"@,
{
}

} // verus!
