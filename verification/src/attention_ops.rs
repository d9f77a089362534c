//! Validation and dispatch planning of the causal softmax.
//!
//! Each row of a dense `[batch, heads, sequence, sequence]` block reads the
//! keys up to its query index. Floating point values are carried as their
//! binary32 bits.

use crate::float_bits::{exponent, finite, fraction, is_finite};
use crate::words::{block, law_words_read_back, word_at, words_bytes};
use vstd::prelude::*;

verus! {

pub const MAX_SEQ: u32 = 1_024;

pub const MAX_ROWS: u32 = 4_096;

pub const MAX_ELEMENTS: usize = 1_048_576;

/// The bits of one.
const ONE_BITS: u32 = 0x3f80_0000;

/// The bits of negative zero.
const NEGATIVE_ZERO_BITS: u32 = 0x8000_0000;

#[derive(Clone, Copy, Debug, PartialEq, Eq, Structural)]
pub enum CausalSoftmaxOp {
    Forward,
    Backward,
}

impl CausalSoftmaxOp {
    pub open spec fn word(self) -> u32 {
        match self {
            CausalSoftmaxOp::Forward => 0,
            CausalSoftmaxOp::Backward => 1,
        }
    }

    /// What a word names.
    pub open spec fn decode(word: u32) -> Option<CausalSoftmaxOp> {
        if word == 0 {
            Some(CausalSoftmaxOp::Forward)
        } else if word == 1 {
            Some(CausalSoftmaxOp::Backward)
        } else {
            None
        }
    }
}

impl TryFrom<u32> for CausalSoftmaxOp {
    type Error = CausalSoftmaxPlanError;

    fn try_from(value: u32) -> (r: Result<Self, CausalSoftmaxPlanError>) {
        match value {
            0 => Ok(CausalSoftmaxOp::Forward),
            1 => Ok(CausalSoftmaxOp::Backward),
            _ => Err(CausalSoftmaxPlanError::OperationOutOfRange),
        }
    }
}

impl vstd::std_specs::convert::TryFromSpecImpl<u32> for CausalSoftmaxOp {
    open spec fn obeys_try_from_spec() -> bool {
        true
    }

    open spec fn try_from_spec(v: u32) -> Result<Self, CausalSoftmaxPlanError> {
        match CausalSoftmaxOp::decode(v) {
            Some(x) => Ok(x),
            None => Err(CausalSoftmaxPlanError::OperationOutOfRange),
        }
    }
}

#[derive(Clone, Copy, Debug, PartialEq, Eq, Structural)]
pub enum CausalSoftmaxPlanError {
    DimensionOutOfRange,
    DimensionOverflow,
    ElementLimitExceeded,
    OperationOutOfRange,
    ShapeMismatch,
    NonfiniteInput,
    InvalidProbability,
    InvalidMaskedProbability,
}

impl CausalSoftmaxPlanError {
    pub open spec fn text(self) -> Seq<char> {
        match self {
            CausalSoftmaxPlanError::DimensionOutOfRange => "causal-softmax-dimension-out-of-range"@,
            CausalSoftmaxPlanError::DimensionOverflow => "causal-softmax-dimension-overflow"@,
            CausalSoftmaxPlanError::ElementLimitExceeded => "causal-softmax-element-limit-exceeded"@,
            CausalSoftmaxPlanError::OperationOutOfRange => "causal-softmax-operation-out-of-range"@,
            CausalSoftmaxPlanError::ShapeMismatch => "causal-softmax-input-shape-mismatch"@,
            CausalSoftmaxPlanError::NonfiniteInput => "causal-softmax-nonfinite-input"@,
            CausalSoftmaxPlanError::InvalidProbability => "causal-softmax-invalid-probability"@,
            CausalSoftmaxPlanError::InvalidMaskedProbability => "causal-softmax-invalid-masked-probability"@,
        }
    }

    /// The refusal's stable name.
    pub fn name(&self) -> (r: &'static str)
        ensures
            r@ == self.text(),
    {
        match self {
            CausalSoftmaxPlanError::DimensionOutOfRange => "causal-softmax-dimension-out-of-range",
            CausalSoftmaxPlanError::DimensionOverflow => "causal-softmax-dimension-overflow",
            CausalSoftmaxPlanError::ElementLimitExceeded => "causal-softmax-element-limit-exceeded",
            CausalSoftmaxPlanError::OperationOutOfRange => "causal-softmax-operation-out-of-range",
            CausalSoftmaxPlanError::ShapeMismatch => "causal-softmax-input-shape-mismatch",
            CausalSoftmaxPlanError::NonfiniteInput => "causal-softmax-nonfinite-input",
            CausalSoftmaxPlanError::InvalidProbability => "causal-softmax-invalid-probability",
            CausalSoftmaxPlanError::InvalidMaskedProbability => "causal-softmax-invalid-masked-probability",
        }
    }
}

/// A causal softmax request.
pub struct CausalSoftmaxRequest {
    pub batch: u32,
    pub heads: u32,
    pub seq: u32,
    pub op: CausalSoftmaxOp,
}

impl CausalSoftmaxRequest {
    pub open spec fn rows(self) -> int {
        self.batch * self.heads * self.seq
    }

    pub open spec fn elements(self) -> int {
        self.rows() * self.seq
    }

    /// Why the request is refused, if it is.
    pub open spec fn refusal(self) -> Option<CausalSoftmaxPlanError> {
        if self.batch == 0 || self.heads == 0 || self.seq == 0 || self.seq > MAX_SEQ {
            Some(CausalSoftmaxPlanError::DimensionOutOfRange)
        } else if self.elements() > u64::MAX {
            Some(CausalSoftmaxPlanError::DimensionOverflow)
        } else if self.rows() > MAX_ROWS {
            Some(CausalSoftmaxPlanError::DimensionOutOfRange)
        } else if self.elements() > MAX_ELEMENTS {
            Some(CausalSoftmaxPlanError::ElementLimitExceeded)
        } else {
            None
        }
    }

    /// The four words of the push block.
    pub open spec fn push_words(self) -> Seq<u32> {
        seq![self.batch, self.heads, self.seq, self.op.word()]
    }

    /// The grid.
    pub open spec fn groups(self) -> Seq<u32> {
        seq![self.rows() as u32, 1u32, 1u32]
    }

    pub open spec fn upstream_len(self) -> int {
        match self.op {
            CausalSoftmaxOp::Forward => 1,
            CausalSoftmaxOp::Backward => self.elements(),
        }
    }
}

/// A value from zero to one, negative zero included.
pub open spec fn probability(bits: u32) -> bool {
    bits <= 0x3f80_0000 || bits == 0x8000_0000
}

/// Row `row` of the probabilities has something other than positive zero beyond
/// its query.
pub open spec fn leaks(q: CausalSoftmaxRequest, primary: Seq<u32>, row: int) -> bool {
    exists|k: int|
        (row % (q.seq as int)) < k < q.seq && #[trigger] primary[row * q.seq + k] != 0
}

/// The verdict on the rows from `row` on: the first row that leaks, or whose
/// mass is not one, decides.
pub open spec fn rows_verdict(
    q: CausalSoftmaxRequest,
    primary: Seq<u32>,
    mass_is_one: Seq<bool>,
    row: int,
) -> Result<(), CausalSoftmaxPlanError>
    decreases q.rows() - row,
{
    if row >= q.rows() {
        Ok(())
    } else if leaks(q, primary, row) {
        Err(CausalSoftmaxPlanError::InvalidMaskedProbability)
    } else if !mass_is_one[row] {
        Err(CausalSoftmaxPlanError::InvalidProbability)
    } else {
        rows_verdict(q, primary, mass_is_one, row + 1)
    }
}

/// The verdict on the inputs of an operation.
pub open spec fn inputs_verdict(
    q: CausalSoftmaxRequest,
    primary: Seq<u32>,
    upstream: Seq<u32>,
    auxiliary: Seq<u32>,
    mass_is_one: Seq<bool>,
) -> Result<(), CausalSoftmaxPlanError> {
    if primary.len() != q.elements() || upstream.len() != q.upstream_len() || auxiliary.len() != 1 {
        Err(CausalSoftmaxPlanError::ShapeMismatch)
    } else if exists|i: int| 0 <= i < primary.len() && !finite(#[trigger] primary[i]) {
        Err(CausalSoftmaxPlanError::NonfiniteInput)
    } else if exists|i: int| 0 <= i < upstream.len() && !finite(#[trigger] upstream[i]) {
        Err(CausalSoftmaxPlanError::NonfiniteInput)
    } else if exists|i: int| 0 <= i < auxiliary.len() && !finite(#[trigger] auxiliary[i]) {
        Err(CausalSoftmaxPlanError::NonfiniteInput)
    } else if q.op is Forward {
        Ok(())
    } else if exists|i: int| 0 <= i < primary.len() && !probability(#[trigger] primary[i]) {
        Err(CausalSoftmaxPlanError::InvalidProbability)
    } else {
        rows_verdict(q, primary, mass_is_one, 0)
    }
}

/// Inputs that are accepted for a backward hold positive zero at every masked
/// key, and every row's mass was found to be one.
pub proof fn law_accepted_backward_is_causal(
    q: CausalSoftmaxRequest,
    primary: Seq<u32>,
    upstream: Seq<u32>,
    auxiliary: Seq<u32>,
    mass_is_one: Seq<bool>,
    row: int,
    key: int,
)
    requires
        q.refusal() is None,
        q.op is Backward,
        inputs_verdict(q, primary, upstream, auxiliary, mass_is_one) is Ok,
        0 <= row < q.rows(),
        0 <= key < q.seq,
    ensures
        mass_is_one[row],
        row % (q.seq as int) < key ==> primary[row * q.seq + key] == 0,
{
    lemma_rows_accepted(q, primary, mass_is_one, 0, row);
}

proof fn lemma_rows_accepted(
    q: CausalSoftmaxRequest,
    primary: Seq<u32>,
    mass_is_one: Seq<bool>,
    from: int,
    row: int,
)
    requires
        from <= row < q.rows(),
        rows_verdict(q, primary, mass_is_one, from) is Ok,
    ensures
        !leaks(q, primary, row),
        mass_is_one[row],
    decreases row - from,
{
    if from < row {
        lemma_rows_accepted(q, primary, mass_is_one, from + 1, row);
    }
}

fn all_finite(values: &[u32]) -> (r: bool)
    ensures
        r == forall|i: int| 0 <= i < values.len() ==> finite(#[trigger] values@[i]),
{
    let mut i: usize = 0;
    while i < values.len()
        invariant
            i <= values.len(),
            forall|j: int| 0 <= j < i ==> finite(#[trigger] values@[j]),
        decreases values.len() - i,
    {
        if !is_finite(values[i]) {
            return false;
        }
        i += 1;
    }
    true
}

fn all_probabilities(values: &[u32]) -> (r: bool)
    ensures
        r == forall|i: int| 0 <= i < values.len() ==> probability(#[trigger] values@[i]),
{
    let mut i: usize = 0;
    while i < values.len()
        invariant
            i <= values.len(),
            forall|j: int| 0 <= j < i ==> probability(#[trigger] values@[j]),
        decreases values.len() - i,
    {
        if !(values[i] <= ONE_BITS || values[i] == NEGATIVE_ZERO_BITS) {
            return false;
        }
        i += 1;
    }
    true
}

/// Dimensions and derived lengths of one causal softmax.
#[derive(Clone, Copy, Debug, PartialEq, Eq, Structural)]
pub struct CausalSoftmaxPlan {
    batch: u32,
    heads: u32,
    seq: u32,
    op: CausalSoftmaxOp,
    rows: u32,
    elements: usize,
}

impl View for CausalSoftmaxPlan {
    type V = CausalSoftmaxRequest;

    closed spec fn view(&self) -> CausalSoftmaxRequest {
        CausalSoftmaxRequest {
            batch: self.batch,
            heads: self.heads,
            seq: self.seq,
            op: self.op,
        }
    }
}

impl CausalSoftmaxPlan {
    #[verifier::type_invariant]
    spec fn admitted(self) -> bool {
        &&& self@.refusal() is None
        &&& self.rows == self@.rows()
        &&& self.elements == self@.elements()
    }

    pub fn new(batch: u32, heads: u32, seq: u32, op: CausalSoftmaxOp) -> (r: Result<
        Self,
        CausalSoftmaxPlanError,
    >)
        ensures
            ({
                let q = CausalSoftmaxRequest { batch, heads, seq, op };
                match q.refusal() {
                    Some(e) => r is Err && r->Err_0 == e,
                    None => r is Ok && r->Ok_0@ == q,
                }
            }),
    {
        let ghost q = CausalSoftmaxRequest { batch, heads, seq, op };
        if batch == 0 || heads == 0 || seq == 0 || seq > MAX_SEQ {
            return Err(CausalSoftmaxPlanError::DimensionOutOfRange);
        }
        proof {
            assert(0 <= batch * heads <= 0xffff_ffff * 0xffff_ffff) by (nonlinear_arith)
                requires
                    0 <= batch <= 0xffff_ffff,
                    0 <= heads <= 0xffff_ffff,
            ;
            let rows = q.rows();
            assert(rows <= rows * seq) by (nonlinear_arith)
                requires
                    rows >= 0 || rows * seq >= rows,
                    seq >= 1,
            ;
        }
        let planes: u64 = (batch as u64) * (heads as u64);
        let rows: u64 = match planes.checked_mul(seq as u64) {
            Some(rows) => rows,
            None => return Err(CausalSoftmaxPlanError::DimensionOverflow),
        };
        let elements: u64 = match rows.checked_mul(seq as u64) {
            Some(elements) => elements,
            None => return Err(CausalSoftmaxPlanError::DimensionOverflow),
        };
        if rows > MAX_ROWS as u64 {
            return Err(CausalSoftmaxPlanError::DimensionOutOfRange);
        }
        if elements > MAX_ELEMENTS as u64 {
            return Err(CausalSoftmaxPlanError::ElementLimitExceeded);
        }
        Ok(
            CausalSoftmaxPlan {
                batch,
                heads,
                seq,
                op,
                rows: rows as u32,
                elements: elements as usize,
            },
        )
    }

    /// Check the lengths and every value, given by its bits. A backward's
    /// probabilities lie between zero and one, are positive zero at every
    /// masked key, and sum to one in each row; `mass_is_one` holds, row by row,
    /// whether the sum was found within the tolerance.
    pub fn validate_inputs(
        &self,
        primary: &[u32],
        upstream: &[u32],
        auxiliary: &[u32],
        mass_is_one: &[bool],
    ) -> (r: Result<(), CausalSoftmaxPlanError>)
        requires
            self@.op is Backward ==> mass_is_one.len() == self@.rows(),
        ensures
            r == inputs_verdict(self@, primary@, upstream@, auxiliary@, mass_is_one@),
    {
        proof {
            use_type_invariant(self);
        }
        if primary.len() != self.primary_len() || upstream.len() != self.upstream_len()
            || auxiliary.len() != self.auxiliary_len() {
            return Err(CausalSoftmaxPlanError::ShapeMismatch);
        }
        if !all_finite(primary) || !all_finite(upstream) || !all_finite(auxiliary) {
            return Err(CausalSoftmaxPlanError::NonfiniteInput);
        }
        if self.op == CausalSoftmaxOp::Forward {
            return Ok(());
        }
        if !all_probabilities(primary) {
            return Err(CausalSoftmaxPlanError::InvalidProbability);
        }
        self.check_rows(primary, mass_is_one)
    }

    /// The verdict on every row of a backward's probabilities.
    fn check_rows(&self, primary: &[u32], mass_is_one: &[bool]) -> (r: Result<
        (),
        CausalSoftmaxPlanError,
    >)
        requires
            primary.len() == self@.elements(),
            mass_is_one.len() == self@.rows(),
        ensures
            r == rows_verdict(self@, primary@, mass_is_one@, 0),
    {
        proof {
            use_type_invariant(self);
        }
        let mut row: usize = 0;
        while row < self.rows as usize
            invariant
                self@.refusal() is None,
                self.rows == self@.rows(),
                self.seq == self@.seq,
                row <= self.rows,
                primary.len() == self@.elements(),
                mass_is_one.len() == self@.rows(),
                rows_verdict(self@, primary@, mass_is_one@, 0) == rows_verdict(
                    self@,
                    primary@,
                    mass_is_one@,
                    row as int,
                ),
            decreases self.rows - row,
        {
            if self.row_leaks(primary, row) {
                return Err(CausalSoftmaxPlanError::InvalidMaskedProbability);
            }
            if !mass_is_one[row] {
                return Err(CausalSoftmaxPlanError::InvalidProbability);
            }
            row += 1;
        }
        Ok(())
    }

    /// Whether a row holds something other than positive zero beyond its query.
    fn row_leaks(&self, primary: &[u32], row: usize) -> (r: bool)
        requires
            row < self@.rows(),
            primary.len() == self@.elements(),
        ensures
            r == leaks(self@, primary@, row as int),
    {
        proof {
            use_type_invariant(self);
        }
        let seq: usize = self.seq as usize;
        let mut k: usize = row % seq + 1;
        while k < seq
            invariant
                self@.refusal() is None,
                seq == self@.seq,
                row < self@.rows(),
                primary.len() == self@.elements(),
                row % seq < k <= seq,
                forall|j: int| row % seq < j < k ==> #[trigger] primary@[row * seq + j] == 0,
            decreases seq - k,
        {
            proof {
                let rows = self@.rows();
                assert(0 <= row * seq <= rows * seq - seq) by (nonlinear_arith)
                    requires
                        0 <= row <= rows - 1,
                        seq >= 0,
                ;
            }
            let at: usize = row * seq + k;
            if primary[at] != 0 {
                proof {
                    assert(primary@[row * seq + k] != 0);
                }
                return true;
            }
            k += 1;
        }
        false
    }

    pub fn batch(&self) -> (r: u32)
        ensures
            r == self@.batch,
    {
        self.batch
    }

    pub fn heads(&self) -> (r: u32)
        ensures
            r == self@.heads,
    {
        self.heads
    }

    pub fn seq(&self) -> (r: u32)
        ensures
            r == self@.seq,
    {
        self.seq
    }

    pub fn op(&self) -> (r: CausalSoftmaxOp)
        ensures
            r == self@.op,
    {
        self.op
    }

    pub fn rows(&self) -> (r: u32)
        ensures
            r == self@.rows(),
    {
        proof {
            use_type_invariant(self);
        }
        self.rows
    }

    pub fn elements(&self) -> (r: usize)
        ensures
            r == self@.elements(),
    {
        proof {
            use_type_invariant(self);
        }
        self.elements
    }

    pub fn primary_len(&self) -> (r: usize)
        ensures
            r == self@.elements(),
    {
        proof {
            use_type_invariant(self);
        }
        self.elements
    }

    pub fn upstream_len(&self) -> (r: usize)
        ensures
            r == self@.upstream_len(),
    {
        proof {
            use_type_invariant(self);
        }
        match self.op {
            CausalSoftmaxOp::Forward => 1,
            CausalSoftmaxOp::Backward => self.elements,
        }
    }

    pub fn auxiliary_len(&self) -> (r: usize)
        ensures
            r == 1,
    {
        1
    }

    pub fn output_len(&self) -> (r: usize)
        ensures
            r == self@.elements(),
    {
        proof {
            use_type_invariant(self);
        }
        self.elements
    }

    pub fn dispatch_groups(&self) -> (r: [u32; 3])
        ensures
            r@ == seq![self@.rows() as u32, 1u32, 1u32],
            r@ == self@.groups(),
    {
        proof {
            use_type_invariant(self);
        }
        let r: [u32; 3] = [self.rows, 1, 1];
        proof {
            assert(r@ =~= seq![self@.rows() as u32, 1u32, 1u32]);
        }
        r
    }

    /// The push block: batch, heads, sequence length, operation.
    pub fn push_constants(&self) -> (r: [u8; 16])
        ensures
            r@ == words_bytes(seq![self@.batch, self@.heads, self@.seq, self@.op.word()]),
            r@ == words_bytes(self@.push_words()),
            word_at(r@, 0) == self@.batch,
            word_at(r@, 1) == self@.heads,
            word_at(r@, 2) == self@.seq,
            word_at(r@, 3) == self@.op.word(),
    {
        let words: [u32; 4] = [self.batch, self.heads, self.seq, self.op as u32];
        proof {
            assert(words@ =~= seq![self@.batch, self@.heads, self@.seq, self@.op.word()]);
            law_words_read_back(words@);
        }
        block(words)
    }
}

/// The operations are numbered 0 and 1, and no other word names one.
pub proof fn law_operations_are_numbered(op: CausalSoftmaxOp, word: u32)
    ensures
        op is Forward <==> op.word() == 0,
        op is Backward <==> op.word() == 1,
        CausalSoftmaxOp::decode(op.word()) == Some(op),
        CausalSoftmaxOp::decode(word) is Some <==> word <= 1,
        CausalSoftmaxOp::decode(word) matches Some(x) ==> x.word() == word,
{
}

/// The probabilities by their bits: every value from positive zero to one, in
/// whose range the bits are ordered as the values are, and negative zero.
pub proof fn law_probabilities_lie_between_zero_and_one(bits: u32)
    ensures
        probability(bits) <==> bits == 0x8000_0000 || (bits < 0x8000_0000 && (exponent(bits) < 127
            || (exponent(bits) == 127 && fraction(bits) == 0))),
        probability(bits) ==> finite(bits),
{
}

/// Row `row` reads the keys up to its query, which is its place in the sequence;
/// it leaks where any later key of the row is not positive zero.
pub proof fn law_rows_leak_beyond_their_query(
    q: CausalSoftmaxRequest,
    primary: Seq<u32>,
    b: int,
    query: int,
    key: int,
)
    requires
        0 <= b,
        0 <= query < q.seq,
        query < key < q.seq,
        primary[(b * q.seq + query) * q.seq + key] != 0,
    ensures
        leaks(q, primary, b * q.seq + query),
{
    let row = b * q.seq + query;
    assert(b * q.seq == q.seq * b) by (nonlinear_arith);
    vstd::arithmetic::div_mod::lemma_fundamental_div_mod_converse(
        row,
        q.seq as int,
        b,
        query,
    );
    assert(primary[row * q.seq + key] != 0);
}

/// The accepted requests: no extent is zero, the sequence is at most 1024 long,
/// and there are at most 4096 rows and 2^20 values.
pub proof fn law_requests_are_admitted_exactly_when_they_fit(q: CausalSoftmaxRequest)
    ensures
        ({
            let sized = q.batch > 0 && q.heads > 0 && 1 <= q.seq <= 1024;
            let rows = q.batch * q.heads * q.seq;
            &&& q.rows() == rows
            &&& q.elements() == rows * q.seq
            &&& q.refusal() is None <==> sized && rows <= 4096 && rows * q.seq <= 1048576
            &&& !sized ==> q.refusal() == Some(CausalSoftmaxPlanError::DimensionOutOfRange)
            &&& sized && rows * q.seq > 0xffff_ffff_ffff_ffff ==> q.refusal() == Some(
                CausalSoftmaxPlanError::DimensionOverflow,
            )
            &&& sized && rows * q.seq <= 0xffff_ffff_ffff_ffff && rows > 4096 ==> q.refusal()
                == Some(CausalSoftmaxPlanError::DimensionOutOfRange)
            &&& sized && rows <= 4096 && rows * q.seq > 1048576 && rows * q.seq
                <= 0xffff_ffff_ffff_ffff ==> q.refusal() == Some(
                CausalSoftmaxPlanError::ElementLimitExceeded,
            )
        }),
{
}

/// The push block is four words: the batch, the heads, the sequence length and
/// the operation; the forward has one unread upstream word, the backward one
/// value per element, and every row has a workgroup.
pub proof fn law_launch_holds_the_request(q: CausalSoftmaxRequest)
    requires
        q.refusal() is None,
    ensures
        ({
            let w = words_bytes(q.push_words());
            &&& w.len() == 16
            &&& word_at(w, 0) == q.batch
            &&& word_at(w, 1) == q.heads
            &&& word_at(w, 2) == q.seq
            &&& q.op is Forward <==> word_at(w, 3) == 0
            &&& q.op is Backward <==> word_at(w, 3) == 1
        }),
        q.op is Forward ==> q.upstream_len() == 1,
        q.op is Backward ==> q.upstream_len() == q.batch * q.heads * q.seq * q.seq,
        q.groups() == seq![(q.batch * q.heads * q.seq) as u32, 1u32, 1u32],
{
    law_words_read_back(q.push_words());
}

/// Inputs are accepted exactly when their lengths are right, every value is
/// finite, and for a backward every probability is one, no row leaks, and every
/// row's mass is one.
pub proof fn law_inputs_are_accepted_exactly_when_sound(
    q: CausalSoftmaxRequest,
    primary: Seq<u32>,
    upstream: Seq<u32>,
    auxiliary: Seq<u32>,
    mass_is_one: Seq<bool>,
)
    ensures
        inputs_verdict(q, primary, upstream, auxiliary, mass_is_one) is Ok <==> {
            &&& primary.len() == q.elements() && upstream.len() == q.upstream_len()
                && auxiliary.len() == 1
            &&& forall|i: int| 0 <= i < primary.len() ==> finite(#[trigger] primary[i])
            &&& forall|i: int| 0 <= i < upstream.len() ==> finite(#[trigger] upstream[i])
            &&& finite(auxiliary[0])
            &&& q.op is Backward ==> {
                &&& forall|i: int| 0 <= i < primary.len() ==> probability(#[trigger] primary[i])
                &&& forall|r: int| 0 <= r < q.rows() ==> sound_row(q, primary, mass_is_one, r)
            }
        },
        primary.len() != q.elements() || upstream.len() != q.upstream_len() || auxiliary.len() != 1
            ==> inputs_verdict(q, primary, upstream, auxiliary, mass_is_one) == Err::<
            (),
            CausalSoftmaxPlanError,
        >(CausalSoftmaxPlanError::ShapeMismatch),
{
    let verdict = rows_verdict(q, primary, mass_is_one, 0);
    if verdict is Ok {
        assert forall|r: int| 0 <= r < q.rows() implies sound_row(q, primary, mass_is_one, r) by {
            lemma_rows_accepted(q, primary, mass_is_one, 0, r);
        }
    }
    if forall|r: int| 0 <= r < q.rows() ==> sound_row(q, primary, mass_is_one, r) {
        lemma_sound_rows_are_accepted(q, primary, mass_is_one, 0);
    }
    if auxiliary.len() == 1 && exists|i: int|
        0 <= i < auxiliary.len() && !finite(#[trigger] auxiliary[i]) {
        let i = choose|i: int| 0 <= i < auxiliary.len() && !finite(#[trigger] auxiliary[i]);
        assert(i == 0);
    }
}

/// A row that neither leaks nor has a mass other than one.
pub open spec fn sound_row(
    q: CausalSoftmaxRequest,
    primary: Seq<u32>,
    mass_is_one: Seq<bool>,
    row: int,
) -> bool {
    !leaks(q, primary, row) && mass_is_one[row]
}

proof fn lemma_sound_rows_are_accepted(
    q: CausalSoftmaxRequest,
    primary: Seq<u32>,
    mass_is_one: Seq<bool>,
    from: int,
)
    requires
        0 <= from,
        forall|r: int| 0 <= r < q.rows() ==> sound_row(q, primary, mass_is_one, r),
    ensures
        rows_verdict(q, primary, mass_is_one, from) is Ok,
    decreases q.rows() - from,
{
    if from < q.rows() {
        assert(sound_row(q, primary, mass_is_one, from));
        lemma_sound_rows_are_accepted(q, primary, mass_is_one, from + 1);
    }
}

/// A row with nothing but positive zero beyond its query does not leak.
pub proof fn law_masked_rows_do_not_leak(
    q: CausalSoftmaxRequest,
    primary: Seq<u32>,
    b: int,
    query: int,
)
    requires
        0 <= b,
        0 <= query < q.seq,
        forall|key: int|
            query < key < q.seq ==> #[trigger] primary[(b * q.seq + query) * q.seq + key] == 0,
    ensures
        !leaks(q, primary, b * q.seq + query),
{
    let row = b * q.seq + query;
    assert(b * q.seq == q.seq * b) by (nonlinear_arith);
    vstd::arithmetic::div_mod::lemma_fundamental_div_mod_converse(
        row,
        q.seq as int,
        b,
        query,
    );
    if leaks(q, primary, row) {
        let k = choose|k: int|
            (row % (q.seq as int)) < k < q.seq && #[trigger] primary[row * q.seq + k] != 0;
        assert(primary[(b * q.seq + query) * q.seq + k] == 0);
    }
}

/// The first row that is not sound decides: its leak, where it has one, before
/// its mass.
pub proof fn law_first_unsound_row_decides(
    q: CausalSoftmaxRequest,
    primary: Seq<u32>,
    mass_is_one: Seq<bool>,
    from: int,
    row: int,
)
    requires
        from <= row < q.rows(),
        !sound_row(q, primary, mass_is_one, row),
        forall|r: int| from <= r < row ==> sound_row(q, primary, mass_is_one, r),
    ensures
        leaks(q, primary, row) ==> rows_verdict(q, primary, mass_is_one, from) == Err::<
            (),
            CausalSoftmaxPlanError,
        >(CausalSoftmaxPlanError::InvalidMaskedProbability),
        !leaks(q, primary, row) ==> rows_verdict(q, primary, mass_is_one, from) == Err::<
            (),
            CausalSoftmaxPlanError,
        >(CausalSoftmaxPlanError::InvalidProbability),
    decreases row - from,
{
    if from < row {
        assert(sound_row(q, primary, mass_is_one, from));
        law_first_unsound_row_decides(q, primary, mass_is_one, from + 1, row);
    }
}

/// Each refusal of a plan has its own name.
pub proof fn law_plan_errors_are_named()
    ensures
        CausalSoftmaxPlanError::DimensionOutOfRange.text()
            == "causal-softmax-dimension-out-of-range"@,
        CausalSoftmaxPlanError::DimensionOverflow.text() == "causal-softmax-dimension-overflow"@,
        CausalSoftmaxPlanError::ElementLimitExceeded.text()
            == "causal-softmax-element-limit-exceeded"@,
        CausalSoftmaxPlanError::OperationOutOfRange.text()
            == "causal-softmax-operation-out-of-range"@,
        CausalSoftmaxPlanError::ShapeMismatch.text() == "causal-softmax-input-shape-mismatch"@,
        CausalSoftmaxPlanError::NonfiniteInput.text() == "causal-softmax-nonfinite-input"@,
        CausalSoftmaxPlanError::InvalidProbability.text() == "causal-softmax-invalid-probability"@,
        CausalSoftmaxPlanError::InvalidMaskedProbability.text()
            == "causal-softmax-invalid-masked-probability"@,
{
}

} // verus!
