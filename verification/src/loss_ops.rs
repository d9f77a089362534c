//! Validation and dispatch planning of the indexed cross-entropy family.
//!
//! Four buffers are bound in order: primary, canonical targets, upstream,
//! output. Primary holds logits, or log-probabilities for the negative
//! log-likelihood operations, or the per-row losses for the reduction. Floating
//! point values are carried as their binary32 bits.

use crate::float_bits::{finite, is_finite, is_nan, nan, nearest_reciprocal, reciprocal_bits};
use crate::words::{
    block, law_words_read_back, signed_word, word_at, word_of_signed, words_bytes, words_to_bytes,
};
use vstd::arithmetic::power2::pow2;
use vstd::prelude::*;

verus! {

pub const MAX_ROWS: u32 = 1_048_576;

pub const MAX_COLS: u32 = 262_144;

pub const MAX_ELEMENTS: usize = 1_073_741_824;

/// The bits of one.
pub const ONE_BITS: u32 = 0x3f80_0000;

/// The bits of positive infinity.
const INFINITY_BITS: u32 = 0x7f80_0000;

#[derive(Clone, Copy, Debug, PartialEq, Eq, Structural)]
pub enum LossOp {
    /// Cross-entropy per row.
    Forward,
    /// Its gradient.
    Backward,
    /// The reduction of per-row losses.
    Reduce,
    /// Negative log-likelihood of log-probabilities.
    NllForward,
    /// Its gradient.
    NllBackward,
}

impl LossOp {
    pub open spec fn word(self) -> u32 {
        match self {
            LossOp::Forward => 0,
            LossOp::Backward => 1,
            LossOp::Reduce => 2,
            LossOp::NllForward => 3,
            LossOp::NllBackward => 4,
        }
    }

    /// What a word names.
    pub open spec fn decode(word: u32) -> Option<LossOp> {
        if word == 0 {
            Some(LossOp::Forward)
        } else if word == 1 {
            Some(LossOp::Backward)
        } else if word == 2 {
            Some(LossOp::Reduce)
        } else if word == 3 {
            Some(LossOp::NllForward)
        } else if word == 4 {
            Some(LossOp::NllBackward)
        } else {
            None
        }
    }
}

impl TryFrom<u32> for LossOp {
    type Error = LossPlanError;

    fn try_from(value: u32) -> (r: Result<Self, LossPlanError>) {
        match value {
            0 => Ok(LossOp::Forward),
            1 => Ok(LossOp::Backward),
            2 => Ok(LossOp::Reduce),
            3 => Ok(LossOp::NllForward),
            4 => Ok(LossOp::NllBackward),
            _ => Err(LossPlanError::OperationOutOfRange),
        }
    }
}

impl vstd::std_specs::convert::TryFromSpecImpl<u32> for LossOp {
    open spec fn obeys_try_from_spec() -> bool {
        true
    }

    open spec fn try_from_spec(v: u32) -> Result<Self, LossPlanError> {
        match LossOp::decode(v) {
            Some(x) => Ok(x),
            None => Err(LossPlanError::OperationOutOfRange),
        }
    }
}

#[derive(Clone, Copy, Debug, PartialEq, Eq, Structural)]
pub enum LossReduction {
    /// One loss per row.
    NoReduction,
    Sum,
    /// The sum over the count of targets that are not ignored.
    Mean,
}

impl LossReduction {
    pub open spec fn word(self) -> u32 {
        match self {
            LossReduction::NoReduction => 0,
            LossReduction::Sum => 1,
            LossReduction::Mean => 2,
        }
    }

    /// What a word names.
    pub open spec fn decode(word: u32) -> Option<LossReduction> {
        if word == 0 {
            Some(LossReduction::NoReduction)
        } else if word == 1 {
            Some(LossReduction::Sum)
        } else if word == 2 {
            Some(LossReduction::Mean)
        } else {
            None
        }
    }
}

impl TryFrom<u32> for LossReduction {
    type Error = LossPlanError;

    fn try_from(value: u32) -> (r: Result<Self, LossPlanError>) {
        match value {
            0 => Ok(LossReduction::NoReduction),
            1 => Ok(LossReduction::Sum),
            2 => Ok(LossReduction::Mean),
            _ => Err(LossPlanError::ReductionOutOfRange),
        }
    }
}

impl vstd::std_specs::convert::TryFromSpecImpl<u32> for LossReduction {
    open spec fn obeys_try_from_spec() -> bool {
        true
    }

    open spec fn try_from_spec(v: u32) -> Result<Self, LossPlanError> {
        match LossReduction::decode(v) {
            Some(x) => Ok(x),
            None => Err(LossPlanError::ReductionOutOfRange),
        }
    }
}

#[derive(Clone, Copy, Debug, PartialEq, Eq, Structural)]
pub enum LossPlanError {
    DimensionOutOfRange,
    ElementLimitExceeded,
    OperationOutOfRange,
    ReductionOutOfRange,
    InvalidReduction,
    TargetShapeMismatch,
    TargetOutOfRange,
    MeanHasNoValidTargets,
    ShapeMismatch,
    NonfiniteInput,
}

impl LossPlanError {
    pub open spec fn text(self) -> Seq<char> {
        match self {
            LossPlanError::DimensionOutOfRange => "loss-dimension-out-of-range"@,
            LossPlanError::ElementLimitExceeded => "loss-element-limit-exceeded"@,
            LossPlanError::OperationOutOfRange => "loss-operation-out-of-range"@,
            LossPlanError::ReductionOutOfRange => "loss-reduction-out-of-range"@,
            LossPlanError::InvalidReduction => "loss-invalid-reduction-for-operation"@,
            LossPlanError::TargetShapeMismatch => "loss-target-shape-mismatch"@,
            LossPlanError::TargetOutOfRange => "loss-target-out-of-range"@,
            LossPlanError::MeanHasNoValidTargets => "loss-mean-has-no-valid-targets"@,
            LossPlanError::ShapeMismatch => "loss-input-shape-mismatch"@,
            LossPlanError::NonfiniteInput => "loss-nonfinite-input"@,
        }
    }

    /// The refusal's stable name.
    pub fn name(&self) -> (r: &'static str)
        ensures
            r@ == self.text(),
    {
        match self {
            LossPlanError::DimensionOutOfRange => "loss-dimension-out-of-range",
            LossPlanError::ElementLimitExceeded => "loss-element-limit-exceeded",
            LossPlanError::OperationOutOfRange => "loss-operation-out-of-range",
            LossPlanError::ReductionOutOfRange => "loss-reduction-out-of-range",
            LossPlanError::InvalidReduction => "loss-invalid-reduction-for-operation",
            LossPlanError::TargetShapeMismatch => "loss-target-shape-mismatch",
            LossPlanError::TargetOutOfRange => "loss-target-out-of-range",
            LossPlanError::MeanHasNoValidTargets => "loss-mean-has-no-valid-targets",
            LossPlanError::ShapeMismatch => "loss-input-shape-mismatch",
            LossPlanError::NonfiniteInput => "loss-nonfinite-input",
        }
    }
}

/// A loss request.
pub struct LossRequest {
    pub rows: u32,
    pub cols: u32,
    pub op: LossOp,
    pub reduction: LossReduction,
    pub ignore_index: i64,
    pub targets: Seq<i64>,
}

/// How many of the first `k` targets are not ignored.
pub open spec fn valid_among(targets: Seq<i64>, ignore_index: i64, k: nat) -> int
    decreases k,
{
    if k == 0 {
        0
    } else {
        valid_among(targets, ignore_index, (k - 1) as nat) + if targets[k - 1] == ignore_index {
            0int
        } else {
            1
        }
    }
}

impl LossRequest {
    pub open spec fn elements(self) -> int {
        self.rows * self.cols
    }

    /// A target that is neither ignored nor a class.
    pub open spec fn stray(self, i: int) -> bool {
        self.targets[i] != self.ignore_index && !(0 <= self.targets[i] < self.cols)
    }

    pub open spec fn valid_count(self) -> int {
        valid_among(self.targets, self.ignore_index, self.targets.len())
    }

    /// Why the request is refused, if it is.
    pub open spec fn refusal(self) -> Option<LossPlanError> {
        if !(1 <= self.rows <= MAX_ROWS && 1 <= self.cols <= MAX_COLS) {
            Some(LossPlanError::DimensionOutOfRange)
        } else if self.elements() > MAX_ELEMENTS {
            Some(LossPlanError::ElementLimitExceeded)
        } else if self.op is Reduce && self.reduction is NoReduction {
            Some(LossPlanError::InvalidReduction)
        } else if self.targets.len() != self.rows {
            Some(LossPlanError::TargetShapeMismatch)
        } else if exists|i: int| 0 <= i < self.targets.len() && #[trigger] self.stray(i) {
            Some(LossPlanError::TargetOutOfRange)
        } else if self.reduction is Mean && self.valid_count() == 0 {
            Some(LossPlanError::MeanHasNoValidTargets)
        } else {
            None
        }
    }

    /// The targets as the kernel reads them: -1 where ignored.
    pub open spec fn canonical(self) -> Seq<i32> {
        Seq::new(
            self.targets.len(),
            |i: int|
                if self.targets[i] == self.ignore_index {
                    -1i32
                } else {
                    self.targets[i] as i32
                },
        )
    }

    /// The bits of the factor the reduction applies.
    pub open spec fn is_normalizer(self, bits: u32) -> bool {
        if self.reduction is Mean {
            nearest_reciprocal(bits, self.valid_count())
        } else {
            bits == ONE_BITS
        }
    }

    pub open spec fn primary_len(self) -> int {
        if self.op is Reduce {
            self.rows as int
        } else {
            self.elements()
        }
    }

    pub open spec fn upstream_len(self) -> int {
        if self.reduction is NoReduction {
            self.rows as int
        } else {
            1
        }
    }

    pub open spec fn output_len(self) -> int {
        match self.op {
            LossOp::Forward | LossOp::NllForward => self.rows as int,
            LossOp::Backward | LossOp::NllBackward => self.elements(),
            LossOp::Reduce => 1,
        }
    }

    pub open spec fn groups(self) -> Seq<u32> {
        if self.op is Reduce {
            seq![1u32, 1u32, 1u32]
        } else {
            seq![self.rows, 1u32, 1u32]
        }
    }

    /// The five words of the push block.
    pub open spec fn push_words(self, normalizer: u32) -> Seq<u32> {
        seq![self.rows, self.cols, self.op.word(), self.reduction.word(), normalizer]
    }

    /// The upload image of the canonical targets.
    pub open spec fn target_image(self) -> Seq<u8> {
        words_bytes(self.canonical().map_values(|t: i32| signed_word(t)))
    }

    /// A primary value the operation reads: log-probabilities may be negative
    /// infinity, other values are finite.
    pub open spec fn admits(self, bits: u32) -> bool {
        if self.op is NllForward || self.op is NllBackward {
            !nan(bits) && bits != 0x7f80_0000
        } else {
            finite(bits)
        }
    }
}

proof fn lemma_valid_among_bounds(targets: Seq<i64>, ignore_index: i64, k: nat)
    ensures
        0 <= valid_among(targets, ignore_index, k) <= k,
    decreases k,
{
    if k > 0 {
        lemma_valid_among_bounds(targets, ignore_index, (k - 1) as nat);
    }
}

/// Every canonical target of an admitted request is a class or -1, and is -1
/// exactly where the caller's target is the ignored index.
pub proof fn law_canonical_targets_are_classes_or_ignored(q: LossRequest, i: int)
    requires
        q.refusal() is None,
        0 <= i < q.targets.len(),
    ensures
        q.canonical()[i] == -1 <==> q.targets[i] == q.ignore_index,
        q.canonical()[i] != -1 ==> 0 <= q.canonical()[i] < q.cols && q.canonical()[i]
            == q.targets[i],
{
    assert(!q.stray(i));
}

/// Dimensions, owned canonical targets and dispatch metadata of one loss
/// operation.
#[derive(Debug, PartialEq, Eq)]
pub struct LossPlan {
    rows: u32,
    cols: u32,
    op: LossOp,
    reduction: LossReduction,
    ignore_index: i64,
    targets: Vec<i32>,
    valid_count: u32,
    elements: usize,
    primary_len: usize,
    upstream_len: usize,
    output_len: usize,
    normalizer: u32,
    dispatch_groups: [u32; 3],
}

impl Clone for LossPlan {
    fn clone(&self) -> (r: Self)
        ensures
            r@ == self@,
            r.normalizer_bits() == self.normalizer_bits(),
    {
        proof {
            use_type_invariant(self);
        }
        let targets: Vec<i32> = self.targets.clone();
        proof {
            assert(targets@ =~= self.targets@);
        }
        LossPlan {
            rows: self.rows,
            cols: self.cols,
            op: self.op,
            reduction: self.reduction,
            ignore_index: self.ignore_index,
            targets,
            valid_count: self.valid_count,
            elements: self.elements,
            primary_len: self.primary_len,
            upstream_len: self.upstream_len,
            output_len: self.output_len,
            normalizer: self.normalizer,
            dispatch_groups: self.dispatch_groups,
        }
    }
}

impl View for LossPlan {
    type V = LossRequest;

    closed spec fn view(&self) -> LossRequest {
        LossRequest {
            rows: self.rows,
            cols: self.cols,
            op: self.op,
            reduction: self.reduction,
            ignore_index: self.ignore_index,
            targets: Seq::new(
                self.targets@.len(),
                |i: int|
                    if self.targets@[i] == -1 {
                        self.ignore_index
                    } else {
                        self.targets@[i] as i64
                    },
            ),
        }
    }
}

impl LossPlan {
    #[verifier::type_invariant]
    spec fn admitted(self) -> bool {
        let q = self@;
        &&& q.refusal() is None
        &&& self.targets@ == q.canonical()
        &&& self.valid_count == q.valid_count()
        &&& self.elements == q.elements()
        &&& self.primary_len == q.primary_len()
        &&& self.upstream_len == q.upstream_len()
        &&& self.output_len == q.output_len()
        &&& q.is_normalizer(self.normalizer)
        &&& self.dispatch_groups@ == q.groups()
    }

    /// The bits of the plan's normalizer.
    pub closed spec fn normalizer_bits(&self) -> u32 {
        self.normalizer
    }

    /// The canonical targets, whether a plan was made from them or not.
    fn canonical_targets(cols: u32, ignore_index: i64, targets: &[i64]) -> (r: Option<
        (Vec<i32>, u32),
    >)
        requires
            targets.len() <= MAX_ROWS,
            cols <= MAX_COLS,
        ensures
            match r {
                Some((canonical, valid)) => {
                    &&& forall|i: int|
                        0 <= i < targets.len() ==> (#[trigger] targets@[i] == ignore_index || 0
                            <= targets@[i] < cols)
                    &&& canonical@.len() == targets.len()
                    &&& forall|i: int|
                        0 <= i < targets.len() ==> #[trigger] canonical@[i] == (if targets@[i]
                            == ignore_index {
                            -1
                        } else {
                            targets@[i] as int
                        })
                    &&& valid == valid_among(targets@, ignore_index, targets@.len())
                },
                None => exists|i: int|
                    0 <= i < targets.len() && #[trigger] targets@[i] != ignore_index && !(0
                        <= targets@[i] < cols),
            },
    {
        let mut canonical: Vec<i32> = Vec::new();
        let mut valid: u32 = 0;
        let mut i: usize = 0;
        while i < targets.len()
            invariant
                i <= targets.len() <= MAX_ROWS,
                cols <= MAX_COLS,
                canonical@.len() == i,
                valid == valid_among(targets@, ignore_index, i as nat),
                valid <= i,
                forall|j: int|
                    0 <= j < i ==> (#[trigger] targets@[j] == ignore_index || 0 <= targets@[j]
                        < cols),
                forall|j: int|
                    0 <= j < i ==> #[trigger] canonical@[j] == (if targets@[j] == ignore_index {
                        -1
                    } else {
                        targets@[j] as int
                    }),
            decreases targets.len() - i,
        {
            let target: i64 = targets[i];
            if target == ignore_index {
                canonical.push(-1);
            } else {
                if target < 0 || target >= cols as i64 {
                    proof {
                        assert(targets@[i as int] != ignore_index);
                    }
                    return None;
                }
                canonical.push(target as i32);
                valid += 1;
            }
            i += 1;
        }
        Some((canonical, valid))
    }

    pub fn new(
        rows: u32,
        cols: u32,
        op: LossOp,
        reduction: LossReduction,
        ignore_index: i64,
        targets: &[i64],
    ) -> (r: Result<Self, LossPlanError>)
        ensures
            ({
                let q = LossRequest { rows, cols, op, reduction, ignore_index, targets: targets@ };
                match q.refusal() {
                    Some(e) => r is Err && r->Err_0 == e,
                    None => r is Ok && r->Ok_0@ == q && q.is_normalizer(r->Ok_0.normalizer_bits()),
                }
            }),
    {
        let ghost q = LossRequest { rows, cols, op, reduction, ignore_index, targets: targets@ };
        if rows == 0 || rows > MAX_ROWS || cols == 0 || cols > MAX_COLS {
            return Err(LossPlanError::DimensionOutOfRange);
        }
        proof {
            assert(0 <= rows * cols <= 0x10_0000 * 0x4_0000) by (nonlinear_arith)
                requires
                    0 <= rows <= 0x10_0000,
                    0 <= cols <= 0x4_0000,
            ;
        }
        let product: u64 = (rows as u64) * (cols as u64);
        if product > MAX_ELEMENTS as u64 {
            return Err(LossPlanError::ElementLimitExceeded);
        }
        let elements: usize = product as usize;
        if op == LossOp::Reduce && reduction == LossReduction::NoReduction {
            return Err(LossPlanError::InvalidReduction);
        }
        if targets.len() != rows as usize {
            return Err(LossPlanError::TargetShapeMismatch);
        }
        let (canonical, valid_count): (Vec<i32>, u32) = match LossPlan::canonical_targets(
            cols,
            ignore_index,
            targets,
        ) {
            Some(t) => t,
            None => {
                proof {
                    let i = choose|i: int|
                        0 <= i < targets.len() && #[trigger] targets@[i] != ignore_index && !(0
                            <= targets@[i] < cols);
                    assert(q.stray(i));
                }
                return Err(LossPlanError::TargetOutOfRange);
            },
        };
        proof {
            lemma_valid_among_bounds(targets@, ignore_index, targets@.len());
            assert forall|i: int| 0 <= i < q.targets.len() implies !#[trigger] q.stray(i) by {
                assert(targets@[i] == ignore_index || 0 <= targets@[i] < cols);
            }
            assert(canonical@ =~= q.canonical());
        }
        if reduction == LossReduction::Mean && valid_count == 0 {
            return Err(LossPlanError::MeanHasNoValidTargets);
        }
        let normalizer: u32 = if reduction == LossReduction::Mean {
            reciprocal_bits(valid_count)
        } else {
            ONE_BITS
        };
        let primary_len: usize = if op == LossOp::Reduce {
            rows as usize
        } else {
            elements
        };
        let output_len: usize = match op {
            LossOp::Forward | LossOp::NllForward => rows as usize,
            LossOp::Backward | LossOp::NllBackward => elements,
            LossOp::Reduce => 1,
        };
        let upstream_len: usize = if reduction == LossReduction::NoReduction {
            rows as usize
        } else {
            1
        };
        let dispatch_groups: [u32; 3] = if op == LossOp::Reduce {
            [1, 1, 1]
        } else {
            [rows, 1, 1]
        };
        proof {
            assert(dispatch_groups@ =~= q.groups());
            let restored = Seq::new(
                canonical@.len(),
                |i: int|
                    if canonical@[i] == -1 {
                        ignore_index
                    } else {
                        canonical@[i] as i64
                    },
            );
            assert forall|i: int| 0 <= i < targets@.len() implies restored[i] == targets@[i] by {
                assert(targets@[i] == ignore_index || 0 <= targets@[i] < cols);
                assert(canonical@[i] == q.canonical()[i]);
            }
            assert(restored =~= targets@);
        }
        Ok(
            LossPlan {
                rows,
                cols,
                op,
                reduction,
                ignore_index,
                targets: canonical,
                valid_count,
                elements,
                primary_len,
                upstream_len,
                output_len,
                normalizer,
                dispatch_groups,
            },
        )
    }

    /// Check the lengths and every value, ignored rows and unread slots
    /// included. Values are given by their bits.
    pub fn validate_inputs(&self, primary: &[u32], upstream: &[u32]) -> (r: Result<
        (),
        LossPlanError,
    >)
        ensures
            r == (if primary.len() != self@.primary_len() || upstream.len() != self@.upstream_len() {
                Err::<(), LossPlanError>(LossPlanError::ShapeMismatch)
            } else if exists|i: int| 0 <= i < upstream.len() && !finite(#[trigger] upstream@[i]) {
                Err(LossPlanError::NonfiniteInput)
            } else if exists|i: int| 0 <= i < primary.len() && !self@.admits(#[trigger] primary@[i]) {
                Err(LossPlanError::NonfiniteInput)
            } else {
                Ok(())
            }),
    {
        proof {
            use_type_invariant(self);
        }
        if primary.len() != self.primary_len || upstream.len() != self.upstream_len {
            return Err(LossPlanError::ShapeMismatch);
        }
        let mut i: usize = 0;
        while i < upstream.len()
            invariant
                i <= upstream.len(),
                primary.len() == self@.primary_len(),
                upstream.len() == self@.upstream_len(),
                forall|j: int| 0 <= j < i ==> finite(#[trigger] upstream@[j]),
            decreases upstream.len() - i,
        {
            if !is_finite(upstream[i]) {
                return Err(LossPlanError::NonfiniteInput);
            }
            i += 1;
        }
        let log_probabilities: bool = matches!(self.op, LossOp::NllForward | LossOp::NllBackward);
        let mut k: usize = 0;
        while k < primary.len()
            invariant
                k <= primary.len(),
                primary.len() == self@.primary_len(),
                upstream.len() == self@.upstream_len(),
                log_probabilities == (self@.op is NllForward || self@.op is NllBackward),
                forall|j: int| 0 <= j < upstream.len() ==> finite(#[trigger] upstream@[j]),
                forall|j: int| 0 <= j < k ==> self@.admits(#[trigger] primary@[j]),
            decreases primary.len() - k,
        {
            let bits: u32 = primary[k];
            let refused: bool = if log_probabilities {
                is_nan(bits) || bits == INFINITY_BITS
            } else {
                !is_finite(bits)
            };
            if refused {
                proof {
                    assert(!self@.admits(primary@[k as int]));
                }
                return Err(LossPlanError::NonfiniteInput);
            }
            k += 1;
        }
        Ok(())
    }

    pub fn rows(&self) -> (r: u32)
        ensures
            r == self@.rows,
    {
        self.rows
    }

    pub fn cols(&self) -> (r: u32)
        ensures
            r == self@.cols,
    {
        self.cols
    }

    pub fn op(&self) -> (r: LossOp)
        ensures
            r == self@.op,
    {
        self.op
    }

    pub fn reduction(&self) -> (r: LossReduction)
        ensures
            r == self@.reduction,
    {
        self.reduction
    }

    pub fn ignore_index(&self) -> (r: i64)
        ensures
            r == self@.ignore_index,
    {
        self.ignore_index
    }

    pub fn targets(&self) -> (r: &[i32])
        ensures
            r@ == self@.canonical(),
    {
        proof {
            use_type_invariant(self);
        }
        self.targets.as_slice()
    }

    pub fn targets_len(&self) -> (r: usize)
        ensures
            r == self@.rows,
    {
        proof {
            use_type_invariant(self);
        }
        self.targets.len()
    }

    /// The upload image of the canonical targets.
    pub fn target_bytes(&self) -> (r: Vec<u8>)
        ensures
            r@ == words_bytes(self@.canonical().map_values(|t: i32| signed_word(t))),
            r@ == self@.target_image(),
            r@.len() == 4 * self@.rows,
            forall|i: int|
                0 <= i < self@.rows && #[trigger] self@.targets[i] != self@.ignore_index ==> word_at(
                    r@,
                    i,
                ) == self@.targets[i],
    {
        proof {
            use_type_invariant(self);
        }
        let mut words: Vec<u32> = Vec::new();
        let mut i: usize = 0;
        while i < self.targets.len()
            invariant
                i <= self.targets.len(),
                words@.len() == i,
                forall|j: int| 0 <= j < i ==> words@[j] == signed_word(self.targets@[j]),
            decreases self.targets.len() - i,
        {
            words.push(word_of_signed(self.targets[i]));
            i += 1;
        }
        proof {
            assert(words@ =~= self@.canonical().map_values(|t: i32| signed_word(t)));
            assert forall|k: int|
                0 <= k < self@.rows && #[trigger] self@.targets[k]
                    != self@.ignore_index implies word_at(words_bytes(words@), k)
                == self@.targets[k] by {
                law_target_image_holds_the_classes(self@, k);
            }
            law_words_read_back(words@);
        }
        words_to_bytes(words.as_slice())
    }

    pub fn valid_count(&self) -> (r: u32)
        ensures
            r == self@.valid_count(),
            r == Set::new(
                |i: int|
                    0 <= i < self@.targets.len() && self@.targets[i] != self@.ignore_index,
            ).len(),
    {
        proof {
            use_type_invariant(self);
            law_valid_count_is_the_number_of_rows_kept(self@);
        }
        self.valid_count
    }

    pub fn elements(&self) -> (r: usize)
        ensures
            r == self@.elements(),
    {
        proof {
            use_type_invariant(self);
        }
        self.elements
    }

    pub fn primary_len(&self) -> (r: usize)
        ensures
            r == self@.primary_len(),
    {
        proof {
            use_type_invariant(self);
        }
        self.primary_len
    }

    pub fn upstream_len(&self) -> (r: usize)
        ensures
            r == self@.upstream_len(),
    {
        proof {
            use_type_invariant(self);
        }
        self.upstream_len
    }

    pub fn output_len(&self) -> (r: usize)
        ensures
            r == self@.output_len(),
    {
        proof {
            use_type_invariant(self);
        }
        self.output_len
    }

    /// The bits of the factor the reduction applies: one over the count of
    /// targets that are not ignored under a mean, else one.
    pub fn normalizer(&self) -> (r: u32)
        ensures
            r == self.normalizer_bits(),
            self@.is_normalizer(r),
    {
        proof {
            use_type_invariant(self);
        }
        self.normalizer
    }

    pub fn dispatch_groups(&self) -> (r: [u32; 3])
        ensures
            r@ == self@.groups(),
    {
        proof {
            use_type_invariant(self);
        }
        self.dispatch_groups
    }

    /// The push block: rows, cols, operation, reduction, normalizer bits.
    pub fn push_constants(&self) -> (r: [u8; 20])
        ensures
            r@ == words_bytes(
                seq![
                    self@.rows,
                    self@.cols,
                    self@.op.word(),
                    self@.reduction.word(),
                    self.normalizer_bits(),
                ],
            ),
            r@ == words_bytes(self@.push_words(self.normalizer_bits())),
            word_at(r@, 0) == self@.rows,
            word_at(r@, 1) == self@.cols,
            word_at(r@, 2) == self@.op.word(),
            word_at(r@, 3) == self@.reduction.word(),
            word_at(r@, 4) == self.normalizer_bits(),
    {
        let words: [u32; 5] = [
            self.rows,
            self.cols,
            self.op as u32,
            self.reduction as u32,
            self.normalizer,
        ];
        proof {
            assert(words@ =~= seq![
                self@.rows,
                self@.cols,
                self@.op.word(),
                self@.reduction.word(),
                self.normalizer_bits(),
            ]);
            law_words_read_back(words@);
        }
        block(words)
    }
}

proof fn lemma_valid_among_is_a_set(targets: Seq<i64>, ignore_index: i64, k: nat)
    requires
        k <= targets.len(),
    ensures
        ({
            let s = Set::new(|i: int| 0 <= i < k && targets[i] != ignore_index);
            s.finite() && s.len() == valid_among(targets, ignore_index, k)
        }),
    decreases k,
{
    let s = Set::new(|i: int| 0 <= i < k && targets[i] != ignore_index);
    if k == 0 {
        assert(s =~= Set::<int>::empty());
    } else {
        let before = Set::new(|i: int| 0 <= i < k - 1 && targets[i] != ignore_index);
        lemma_valid_among_is_a_set(targets, ignore_index, (k - 1) as nat);
        if targets[k - 1] == ignore_index {
            assert(s =~= before);
        } else {
            assert(s =~= before.insert(k - 1));
        }
    }
}

/// The valid targets are counted by place: the count is the size of the set of
/// rows whose target is not the ignored index, however often a class recurs.
pub proof fn law_valid_count_is_the_number_of_rows_kept(q: LossRequest)
    ensures
        Set::new(|i: int| 0 <= i < q.targets.len() && q.targets[i] != q.ignore_index).finite(),
        q.valid_count() == Set::new(
            |i: int| 0 <= i < q.targets.len() && q.targets[i] != q.ignore_index,
        ).len(),
{
    lemma_valid_among_is_a_set(q.targets, q.ignore_index, q.targets.len());
}

/// Every row is counted where none is ignored, and none where all are.
pub proof fn law_valid_count_spans_the_rows(q: LossRequest)
    requires
        q.refusal() is None,
    ensures
        0 <= q.valid_count() <= q.rows,
        q.valid_count() == q.rows <==> forall|i: int|
            0 <= i < q.rows ==> #[trigger] q.targets[i] != q.ignore_index,
        q.valid_count() == 0 <==> forall|i: int|
            0 <= i < q.rows ==> #[trigger] q.targets[i] == q.ignore_index,
{
    lemma_valid_among_extremes(q.targets, q.ignore_index, q.targets.len());
}

proof fn lemma_valid_among_extremes(targets: Seq<i64>, ignore_index: i64, k: nat)
    requires
        k <= targets.len(),
    ensures
        0 <= valid_among(targets, ignore_index, k) <= k,
        valid_among(targets, ignore_index, k) == k <==> forall|i: int|
            0 <= i < k ==> #[trigger] targets[i] != ignore_index,
        valid_among(targets, ignore_index, k) == 0 <==> forall|i: int|
            0 <= i < k ==> #[trigger] targets[i] == ignore_index,
    decreases k,
{
    if k > 0 {
        lemma_valid_among_extremes(targets, ignore_index, (k - 1) as nat);
        let last = targets[k - 1];
    }
}

/// One more row counts exactly if its target is not ignored.
pub proof fn law_each_row_counts_once(q: LossRequest, target: i64)
    ensures
        ({
            let longer = LossRequest {
                rows: q.rows,
                cols: q.cols,
                op: q.op,
                reduction: q.reduction,
                ignore_index: q.ignore_index,
                targets: q.targets.push(target),
            };
            longer.valid_count() == q.valid_count() + if target == q.ignore_index {
                0int
            } else {
                1
            }
        }),
{
    let n = q.targets.len();
    let more = q.targets.push(target);
    lemma_valid_among_is_a_set(q.targets, q.ignore_index, n);
    lemma_valid_among_is_a_set(more, q.ignore_index, n);
    assert(Set::new(|i: int| 0 <= i < n && q.targets[i] != q.ignore_index) =~= Set::new(
        |i: int| 0 <= i < n && more[i] != q.ignore_index,
    ));
}

/// The operations and the reductions are numbered from 0, and no other word
/// names one.
pub proof fn law_operations_are_numbered(op: LossOp, reduction: LossReduction, word: u32)
    ensures
        op is Forward <==> op.word() == 0,
        op is Backward <==> op.word() == 1,
        op is Reduce <==> op.word() == 2,
        op is NllForward <==> op.word() == 3,
        op is NllBackward <==> op.word() == 4,
        LossOp::decode(op.word()) == Some(op),
        LossOp::decode(word) is Some <==> word <= 4,
        LossOp::decode(word) matches Some(x) ==> x.word() == word,
        reduction is NoReduction <==> reduction.word() == 0,
        reduction is Sum <==> reduction.word() == 1,
        reduction is Mean <==> reduction.word() == 2,
        LossReduction::decode(reduction.word()) == Some(reduction),
        LossReduction::decode(word) is Some <==> word <= 2,
        LossReduction::decode(word) matches Some(x) ==> x.word() == word,
{
}

/// What an operation reads and writes: the gradients one value per logit, the
/// losses one per row and the reduction one in all; every operation but the
/// reduction reads the logits, which reads the per-row losses; and the upstream
/// value is one, or one per row where nothing is reduced.
pub proof fn law_lengths_follow_the_operation(q: LossRequest)
    ensures
        q.op is Forward || q.op is NllForward ==> q.output_len() == q.rows && q.primary_len()
            == q.rows * q.cols,
        q.op is Backward || q.op is NllBackward ==> q.output_len() == q.rows * q.cols
            && q.primary_len() == q.rows * q.cols,
        q.op is Reduce ==> q.output_len() == 1 && q.primary_len() == q.rows,
        q.reduction is NoReduction ==> q.upstream_len() == q.rows,
        q.reduction is Sum || q.reduction is Mean ==> q.upstream_len() == 1,
        q.elements() == q.rows * q.cols,
{
}

/// Every row has a workgroup of its own, but the reduction, which one workgroup
/// runs.
pub proof fn law_rows_have_a_workgroup_each(q: LossRequest)
    ensures
        q.groups().len() == 3,
        q.groups()[1] == 1 && q.groups()[2] == 1,
        q.op is Reduce ==> q.groups()[0] == 1,
        !(q.op is Reduce) ==> q.groups()[0] == q.rows,
{
}

/// A mean is the sum times one over the number of rows that are not ignored, in
/// binary32 rounded to nearest; every other reduction multiplies by one, whose
/// exponent is 127 and whose fraction is zero.
pub proof fn law_normalizer_is_the_reciprocal_of_the_rows_kept(q: LossRequest, bits: u32)
    requires
        q.refusal() is None,
        q.is_normalizer(bits),
    ensures
        !(q.reduction is Mean) ==> bits == 127 * 0x80_0000,
        q.reduction is Mean ==> {
            let kept = Set::new(
                |i: int| 0 <= i < q.targets.len() && q.targets[i] != q.ignore_index,
            ).len() as int;
            let e = (bits / 0x80_0000) as int;
            let significand = 0x80_0000 + bits % 0x80_0000;
            &&& kept >= 1
            &&& 0 < e <= 127
            &&& -kept < 2 * (significand * kept - pow2((150 - e) as nat)) < kept
        },
{
    law_valid_count_is_the_number_of_rows_kept(q);
}

/// The accepted requests: extents in range, at most 2^30 values, a reduction for
/// the reducing operation, one target per row, each a class or ignored, and for a
/// mean at least one row that is not ignored; what fails first is the refusal.
pub proof fn law_requests_are_admitted_exactly_when_consistent(q: LossRequest)
    ensures
        ({
            let sized = 1 <= q.rows <= 1048576 && 1 <= q.cols <= 262144;
            let few = q.rows * q.cols <= 1073741824;
            let reducible = !(q.op is Reduce && q.reduction is NoReduction);
            let paired = q.targets.len() == q.rows;
            let classes = forall|i: int|
                0 <= i < q.targets.len() ==> #[trigger] q.targets[i] == q.ignore_index || 0
                    <= q.targets[i] < q.cols;
            let some_kept = exists|i: int|
                0 <= i < q.targets.len() && #[trigger] q.targets[i] != q.ignore_index;
            &&& q.refusal() is None <==> sized && few && reducible && paired && classes && (
            q.reduction is Mean ==> some_kept)
            &&& q.refusal() == Some(LossPlanError::DimensionOutOfRange) <==> !sized
            &&& q.refusal() == Some(LossPlanError::ElementLimitExceeded) <==> sized && !few
            &&& q.refusal() == Some(LossPlanError::InvalidReduction) <==> sized && few && !reducible
            &&& q.refusal() == Some(LossPlanError::TargetShapeMismatch) <==> sized && few
                && reducible && !paired
            &&& q.refusal() == Some(LossPlanError::TargetOutOfRange) <==> sized && few && reducible
                && paired && !classes
            &&& q.refusal() == Some(LossPlanError::MeanHasNoValidTargets) <==> sized && few
                && reducible && paired && classes && q.reduction is Mean && !some_kept
        }),
{
    lemma_valid_among_extremes(q.targets, q.ignore_index, q.targets.len());
    if forall|i: int|
        0 <= i < q.targets.len() ==> #[trigger] q.targets[i] == q.ignore_index || 0 <= q.targets[i]
            < q.cols {
        assert forall|i: int| 0 <= i < q.targets.len() implies !#[trigger] q.stray(i) by {
            assert(q.targets[i] == q.ignore_index || 0 <= q.targets[i] < q.cols);
        }
    } else {
        let i = choose|i: int|
            0 <= i < q.targets.len() && !(#[trigger] q.targets[i] == q.ignore_index || 0
                <= q.targets[i] < q.cols);
        assert(q.stray(i));
    }
}

/// The target image has one word per row: the class itself, or all ones where
/// the row is ignored.
pub proof fn law_target_image_holds_the_classes(q: LossRequest, i: int)
    requires
        q.refusal() is None,
        0 <= i < q.rows,
    ensures
        q.target_image().len() == 4 * q.rows,
        q.targets[i] != q.ignore_index ==> word_at(q.target_image(), i) == q.targets[i],
        q.targets[i] == q.ignore_index ==> word_at(q.target_image(), i) == 0xffff_ffff,
{
    law_canonical_targets_are_classes_or_ignored(q, i);
    law_words_read_back(q.canonical().map_values(|t: i32| signed_word(t)));
}

/// The push block is five words: rows, columns, operation, reduction and the
/// normalizer's bits.
pub proof fn law_push_block_holds_the_request(q: LossRequest, normalizer: u32)
    ensures
        ({
            let w = words_bytes(q.push_words(normalizer));
            &&& w.len() == 20
            &&& word_at(w, 0) == q.rows
            &&& word_at(w, 1) == q.cols
            &&& q.op is Forward <==> word_at(w, 2) == 0
            &&& q.op is Backward <==> word_at(w, 2) == 1
            &&& q.op is Reduce <==> word_at(w, 2) == 2
            &&& q.op is NllForward <==> word_at(w, 2) == 3
            &&& q.op is NllBackward <==> word_at(w, 2) == 4
            &&& q.reduction is NoReduction <==> word_at(w, 3) == 0
            &&& q.reduction is Sum <==> word_at(w, 3) == 1
            &&& q.reduction is Mean <==> word_at(w, 3) == 2
            &&& word_at(w, 4) == normalizer
        }),
{
    law_words_read_back(q.push_words(normalizer));
}

/// The values an operation takes: log-probabilities are no NaN and not positive
/// infinity, every other input is finite, with an exponent below 255.
pub proof fn law_inputs_are_admitted_exactly_when_usable(q: LossRequest, bits: u32)
    ensures
        q.op is NllForward || q.op is NllBackward ==> (q.admits(bits) <==> (bits / 0x80_0000) % 256
            != 255 || bits == 0xff80_0000),
        q.op is Forward || q.op is Backward || q.op is Reduce ==> (q.admits(bits) <==> (bits
            / 0x80_0000) % 256 != 255),
{
}

/// Each refusal of a plan has its own name.
pub proof fn law_plan_errors_are_named()
    ensures
        LossPlanError::DimensionOutOfRange.text() == "loss-dimension-out-of-range"@,
        LossPlanError::ElementLimitExceeded.text() == "loss-element-limit-exceeded"@,
        LossPlanError::OperationOutOfRange.text() == "loss-operation-out-of-range"@,
        LossPlanError::ReductionOutOfRange.text() == "loss-reduction-out-of-range"@,
        LossPlanError::InvalidReduction.text() == "loss-invalid-reduction-for-operation"@,
        LossPlanError::TargetShapeMismatch.text() == "loss-target-shape-mismatch"@,
        LossPlanError::TargetOutOfRange.text() == "loss-target-out-of-range"@,
        LossPlanError::MeanHasNoValidTargets.text() == "loss-mean-has-no-valid-targets"@,
        LossPlanError::ShapeMismatch.text() == "loss-input-shape-mismatch"@,
        LossPlanError::NonfiniteInput.text() == "loss-nonfinite-input"@,
{
}

} // verus!
