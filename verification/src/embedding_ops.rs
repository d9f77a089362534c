//! Validation and dispatch planning of the embedding family.
//!
//! The gather binds weights, token ids, a dummy offset word and token vectors.
//! The backward binds upstream token vectors, token positions grouped by
//! vocabulary id in their original order, the bucket offsets, and the whole
//! vocabulary gradient, so that each gradient lane sums without atomics.

use crate::arith::{ceil_div, div_ceil, lemma_ceil_div_covers};
use crate::float_bits::{finite, is_finite};
use crate::words::{block, law_words_read_back, word_at, words_bytes, words_to_bytes};
use vstd::prelude::*;

verus! {

pub const MAX_N: u32 = 65_536;

pub const MAX_VOCAB: u32 = 262_144;

pub const MAX_DIM: u32 = 16_384;

pub const MAX_ELEMENTS: usize = 1_073_741_824;

pub const WORKGROUP_SIZE: u32 = 64;

#[derive(Clone, Copy, Debug, PartialEq, Eq, Structural)]
pub enum EmbeddingOp {
    Gather,
    Backward,
}

impl EmbeddingOp {
    pub open spec fn word(self) -> u32 {
        match self {
            EmbeddingOp::Gather => 0,
            EmbeddingOp::Backward => 1,
        }
    }

    /// What a word names.
    pub open spec fn decode(word: u32) -> Option<EmbeddingOp> {
        if word == 0 {
            Some(EmbeddingOp::Gather)
        } else if word == 1 {
            Some(EmbeddingOp::Backward)
        } else {
            None
        }
    }
}

impl TryFrom<u32> for EmbeddingOp {
    type Error = EmbeddingPlanError;

    fn try_from(value: u32) -> (r: Result<Self, EmbeddingPlanError>) {
        match value {
            0 => Ok(EmbeddingOp::Gather),
            1 => Ok(EmbeddingOp::Backward),
            _ => Err(EmbeddingPlanError::OperationOutOfRange),
        }
    }
}

impl vstd::std_specs::convert::TryFromSpecImpl<u32> for EmbeddingOp {
    open spec fn obeys_try_from_spec() -> bool {
        true
    }

    open spec fn try_from_spec(v: u32) -> Result<Self, EmbeddingPlanError> {
        match EmbeddingOp::decode(v) {
            Some(x) => Ok(x),
            None => Err(EmbeddingPlanError::OperationOutOfRange),
        }
    }
}

#[derive(Clone, Copy, Debug, PartialEq, Eq, Structural)]
pub enum EmbeddingPlanError {
    DimensionOutOfRange,
    ElementLimitExceeded,
    OperationOutOfRange,
    IndexShapeMismatch,
    IndexOutOfRange,
    ShapeMismatch,
    NonfiniteInput,
}

impl EmbeddingPlanError {
    pub open spec fn text(self) -> Seq<char> {
        match self {
            EmbeddingPlanError::DimensionOutOfRange => "embedding-dimension-out-of-range"@,
            EmbeddingPlanError::ElementLimitExceeded => "embedding-element-limit-exceeded"@,
            EmbeddingPlanError::OperationOutOfRange => "embedding-operation-out-of-range"@,
            EmbeddingPlanError::IndexShapeMismatch => "embedding-index-shape-mismatch"@,
            EmbeddingPlanError::IndexOutOfRange => "embedding-index-out-of-range"@,
            EmbeddingPlanError::ShapeMismatch => "embedding-input-shape-mismatch"@,
            EmbeddingPlanError::NonfiniteInput => "embedding-nonfinite-input"@,
        }
    }

    /// The refusal's stable name.
    pub fn name(&self) -> (r: &'static str)
        ensures
            r@ == self.text(),
    {
        match self {
            EmbeddingPlanError::DimensionOutOfRange => "embedding-dimension-out-of-range",
            EmbeddingPlanError::ElementLimitExceeded => "embedding-element-limit-exceeded",
            EmbeddingPlanError::OperationOutOfRange => "embedding-operation-out-of-range",
            EmbeddingPlanError::IndexShapeMismatch => "embedding-index-shape-mismatch",
            EmbeddingPlanError::IndexOutOfRange => "embedding-index-out-of-range",
            EmbeddingPlanError::ShapeMismatch => "embedding-input-shape-mismatch",
            EmbeddingPlanError::NonfiniteInput => "embedding-nonfinite-input",
        }
    }
}

/// How many of the first `k` ids are below `v`.
pub open spec fn below(ids: Seq<u32>, v: int, k: nat) -> int
    decreases k,
{
    if k == 0 {
        0
    } else {
        below(ids, v, (k - 1) as nat) + if ids[k - 1] < v {
            1int
        } else {
            0
        }
    }
}

/// How many of the first `k` ids are `v`.
pub open spec fn equal(ids: Seq<u32>, v: int, k: nat) -> int
    decreases k,
{
    if k == 0 {
        0
    } else {
        equal(ids, v, (k - 1) as nat) + if ids[k - 1] == v {
            1int
        } else {
            0
        }
    }
}

/// Where the bucket of id `v` begins: after every token with a smaller id.
pub open spec fn bucket_start(ids: Seq<u32>, v: int) -> int {
    below(ids, v, ids.len())
}

/// Where token `i` stands among the grouped positions: in its id's bucket,
/// after the earlier tokens with the same id.
pub open spec fn slot(ids: Seq<u32>, i: int) -> int {
    bucket_start(ids, ids[i] as int) + equal(ids, ids[i] as int, i as nat)
}

proof fn lemma_below_next(ids: Seq<u32>, v: int, k: nat)
    requires
        k <= ids.len(),
    ensures
        below(ids, v + 1, k) == below(ids, v, k) + equal(ids, v, k),
    decreases k,
{
    if k > 0 {
        lemma_below_next(ids, v, (k - 1) as nat);
    }
}

proof fn lemma_below_zero(ids: Seq<u32>, k: nat)
    requires
        k <= ids.len(),
    ensures
        below(ids, 0, k) == 0,
    decreases k,
{
    if k > 0 {
        lemma_below_zero(ids, (k - 1) as nat);
    }
}

proof fn lemma_below_bounds(ids: Seq<u32>, v: int, w: int, k: nat)
    requires
        k <= ids.len(),
        v <= w,
    ensures
        0 <= below(ids, v, k) <= below(ids, w, k) <= k,
    decreases k,
{
    if k > 0 {
        lemma_below_bounds(ids, v, w, (k - 1) as nat);
    }
}

proof fn lemma_equal_monotone(ids: Seq<u32>, v: int, j: nat, k: nat)
    requires
        j <= k <= ids.len(),
    ensures
        0 <= equal(ids, v, j) <= equal(ids, v, k) <= k,
        j < k && ids[j as int] == v ==> equal(ids, v, j) < equal(ids, v, k),
    decreases k,
{
    if k > 0 {
        if j < k {
            lemma_equal_monotone(ids, v, j, (k - 1) as nat);
        } else {
            lemma_equal_monotone(ids, v, (k - 1) as nat, (k - 1) as nat);
        }
    }
}

/// A token's slot lies in its id's bucket.
pub proof fn law_slot_is_in_its_bucket(ids: Seq<u32>, i: int)
    requires
        0 <= i < ids.len(),
    ensures
        bucket_start(ids, ids[i] as int) <= slot(ids, i) < bucket_start(ids, ids[i] + 1),
        0 <= slot(ids, i) < ids.len(),
{
    let v = ids[i] as int;
    lemma_below_next(ids, v, ids.len());
    lemma_equal_monotone(ids, v, i as nat, ids.len());
    lemma_below_bounds(ids, v, v + 1, ids.len());
}

/// Grouping is stable: tokens are ordered by id, and by position within an id.
pub proof fn law_grouping_is_stable(ids: Seq<u32>, i: int, j: int)
    requires
        0 <= i < ids.len(),
        0 <= j < ids.len(),
        ids[i] < ids[j] || (ids[i] == ids[j] && i < j),
    ensures
        slot(ids, i) < slot(ids, j),
{
    law_slot_is_in_its_bucket(ids, i);
    law_slot_is_in_its_bucket(ids, j);
    if ids[i] < ids[j] {
        lemma_below_bounds(ids, ids[i] + 1, ids[j] as int, ids.len());
    } else {
        lemma_equal_monotone(ids, ids[i] as int, i as nat, j as nat);
    }
}

/// Two tokens never share a slot.
pub proof fn law_slots_are_distinct(ids: Seq<u32>, i: int, j: int)
    requires
        0 <= i < ids.len(),
        0 <= j < ids.len(),
        i != j,
    ensures
        slot(ids, i) != slot(ids, j),
{
    if ids[i] < ids[j] || (ids[i] == ids[j] && i < j) {
        law_grouping_is_stable(ids, i, j);
    } else {
        law_grouping_is_stable(ids, j, i);
    }
}

/// The token with `m` earlier tokens of the same id `v`.
proof fn lemma_nth_equal(ids: Seq<u32>, v: int, m: int, k: nat) -> (i: int)
    requires
        k <= ids.len(),
        0 <= m < equal(ids, v, k),
    ensures
        0 <= i < k,
        ids[i] == v,
        equal(ids, v, i as nat) == m,
    decreases k,
{
    if m < equal(ids, v, (k - 1) as nat) {
        lemma_nth_equal(ids, v, m, (k - 1) as nat)
    } else {
        k - 1
    }
}

/// Every place inside a bucket is the slot of a token with that id.
pub proof fn law_bucket_is_full(ids: Seq<u32>, v: int, s: int) -> (i: int)
    requires
        bucket_start(ids, v) <= s < bucket_start(ids, v + 1),
    ensures
        0 <= i < ids.len(),
        ids[i] == v,
        slot(ids, i) == s,
{
    lemma_below_next(ids, v, ids.len());
    lemma_nth_equal(ids, v, s - bucket_start(ids, v), ids.len())
}

/// An embedding request.
pub struct EmbeddingRequest {
    pub n: u32,
    pub vocab: u32,
    pub dim: u32,
    pub op: EmbeddingOp,
    pub ids: Seq<i64>,
}

impl EmbeddingRequest {
    /// An id outside the vocabulary.
    pub open spec fn stray(self, i: int) -> bool {
        !(0 <= self.ids[i] < self.vocab)
    }

    /// Why the request is refused, if it is.
    pub open spec fn refusal(self) -> Option<EmbeddingPlanError> {
        if !(1 <= self.n <= MAX_N && 1 <= self.vocab <= MAX_VOCAB && 1 <= self.dim <= MAX_DIM) {
            Some(EmbeddingPlanError::DimensionOutOfRange)
        } else if self.n * self.dim > MAX_ELEMENTS || self.vocab * self.dim > MAX_ELEMENTS {
            Some(EmbeddingPlanError::ElementLimitExceeded)
        } else if self.ids.len() != self.n {
            Some(EmbeddingPlanError::IndexShapeMismatch)
        } else if exists|i: int| 0 <= i < self.ids.len() && #[trigger] self.stray(i) {
            Some(EmbeddingPlanError::IndexOutOfRange)
        } else {
            None
        }
    }

    /// The ids as words.
    pub open spec fn words(self) -> Seq<u32> {
        Seq::new(self.ids.len(), |i: int| self.ids[i] as u32)
    }

    pub open spec fn primary_len(self) -> int {
        match self.op {
            EmbeddingOp::Gather => self.vocab * self.dim,
            EmbeddingOp::Backward => self.n * self.dim,
        }
    }

    pub open spec fn output_len(self) -> int {
        match self.op {
            EmbeddingOp::Gather => self.n * self.dim,
            EmbeddingOp::Backward => self.vocab * self.dim,
        }
    }

    pub open spec fn groups(self) -> Seq<u32> {
        seq![ceil_div(self.output_len(), WORKGROUP_SIZE as int) as u32, 1u32, 1u32]
    }

    /// The four words of the push block.
    pub open spec fn push_words(self) -> Seq<u32> {
        seq![self.n, self.vocab, self.dim, self.op.word()]
    }

    /// `offsets` holds where each bucket begins, and where the last ends.
    pub open spec fn is_offsets(self, offsets: Seq<u32>) -> bool {
        &&& offsets.len() == self.vocab + 1
        &&& forall|v: int|
            0 <= v <= self.vocab ==> #[trigger] offsets[v] == bucket_start(self.words(), v)
    }

    /// `positions` holds each token's position at its slot.
    pub open spec fn is_positions(self, positions: Seq<u32>) -> bool {
        &&& positions.len() == self.n
        &&& forall|i: int| 0 <= i < self.n ==> positions[#[trigger] slot(self.words(), i)] == i
    }
}

/// The grid covers every output element, and no workgroup lies wholly beyond.
pub proof fn law_grid_covers_the_output(q: EmbeddingRequest)
    requires
        q.refusal() is None,
    ensures
        q.groups()[0] * WORKGROUP_SIZE >= q.output_len(),
        (q.groups()[0] - 1) * WORKGROUP_SIZE < q.output_len(),
{
    assert(1 <= q.n * q.dim) by (nonlinear_arith)
        requires
            q.n >= 1,
            q.dim >= 1,
    ;
    assert(1 <= q.vocab * q.dim) by (nonlinear_arith)
        requires
            q.vocab >= 1,
            q.dim >= 1,
    ;
    lemma_ceil_div_covers(q.output_len(), WORKGROUP_SIZE as int);
}

/// The bucket offsets and grouped positions of a list of ids: a stable counting
/// sort.
fn group_by_id(ids: &Vec<u32>, vocab: u32) -> (r: (Vec<u32>, Vec<u32>))
    requires
        ids.len() <= MAX_N,
        vocab <= MAX_VOCAB,
        forall|i: int| 0 <= i < ids.len() ==> #[trigger] ids@[i] < vocab,
    ensures
        r.0.len() == vocab + 1,
        forall|v: int| 0 <= v <= vocab ==> #[trigger] r.0@[v] == bucket_start(ids@, v),
        r.1.len() == ids.len(),
        forall|i: int| 0 <= i < ids.len() ==> r.1@[#[trigger] slot(ids@, i)] == i,
{
    let n: usize = ids.len();
    let size: usize = vocab as usize + 1;
    let mut offsets: Vec<u32> = Vec::new();
    let mut cursors: Vec<u32> = Vec::new();
    let mut v: usize = 0;
    while v < size
        invariant
            v <= size,
            offsets@.len() == v,
            forall|u: int| 0 <= u < v ==> offsets@[u] == 0,
        decreases size - v,
    {
        offsets.push(0);
        v += 1;
    }
    // count each id one place further on
    let mut i: usize = 0;
    while i < n
        invariant
            i <= n == ids.len(),
            n <= MAX_N,
            size == vocab + 1,
            offsets@.len() == size,
            forall|j: int| 0 <= j < ids.len() ==> #[trigger] ids@[j] < vocab,
            offsets@[0] == 0,
            forall|u: int| 1 <= u <= vocab ==> #[trigger] offsets@[u] == equal(ids@, u - 1, i as nat),
        decreases n - i,
    {
        let at: usize = ids[i] as usize + 1;
        proof {
            lemma_equal_monotone(ids@, at - 1, i as nat, i as nat);
        }
        let count: u32 = offsets[at];
        offsets.set(at, count + 1);
        i += 1;
    }
    // running sums turn counts into starts
    let mut k: usize = 1;
    proof {
        lemma_below_zero(ids@, n as nat);
    }
    while k < size
        invariant
            1 <= k <= size,
            n == ids.len(),
            n <= MAX_N,
            size == vocab + 1,
            offsets@.len() == size,
            forall|u: int| 0 <= u < k ==> #[trigger] offsets@[u] == bucket_start(ids@, u),
            forall|u: int|
                k <= u <= vocab ==> #[trigger] offsets@[u] == equal(ids@, u - 1, n as nat),
        decreases size - k,
    {
        proof {
            lemma_below_next(ids@, k - 1, n as nat);
            lemma_below_bounds(ids@, k - 1, k as int, n as nat);
            assert(offsets@[k - 1] == bucket_start(ids@, k - 1));
            assert(offsets@[k as int] == equal(ids@, k - 1, n as nat));
        }
        let before: u32 = offsets[k - 1];
        let own: u32 = offsets[k];
        offsets.set(k, own + before);
        k += 1;
    }
    let mut u: usize = 0;
    while u < size
        invariant
            u <= size,
            size == vocab + 1,
            offsets@.len() == size,
            cursors@.len() == u,
            forall|w: int| 0 <= w < u ==> cursors@[w] == offsets@[w],
        decreases size - u,
    {
        cursors.push(offsets[u]);
        u += 1;
    }
    let mut positions: Vec<u32> = Vec::new();
    let mut p: usize = 0;
    while p < n
        invariant
            p <= n,
            positions@.len() == p,
        decreases n - p,
    {
        positions.push(0);
        p += 1;
    }
    // in token order, so that each bucket keeps it
    let mut t: usize = 0;
    while t < n
        invariant
            t <= n == ids.len(),
            n <= MAX_N,
            size == vocab + 1,
            cursors@.len() == size,
            positions@.len() == n,
            forall|j: int| 0 <= j < ids.len() ==> #[trigger] ids@[j] < vocab,
            forall|w: int|
                0 <= w < vocab ==> #[trigger] cursors@[w] == bucket_start(ids@, w) + equal(
                    ids@,
                    w,
                    t as nat,
                ),
            forall|j: int| 0 <= j < t ==> positions@[#[trigger] slot(ids@, j)] == j,
        decreases n - t,
    {
        let id: usize = ids[t] as usize;
        let at: u32 = cursors[id];
        proof {
            assert(cursors@[id as int] == bucket_start(ids@, id as int) + equal(
                ids@,
                id as int,
                t as nat,
            ));
            assert(at == slot(ids@, t as int));
            law_slot_is_in_its_bucket(ids@, t as int);
            assert forall|j: int| 0 <= j < t implies #[trigger] slot(ids@, j) != at && 0 <= slot(
                ids@,
                j,
            ) < n by {
                law_slots_are_distinct(ids@, j, t as int);
                law_slot_is_in_its_bucket(ids@, j);
            }
        }
        positions.set(at as usize, t as u32);
        cursors.set(id, at + 1);
        t += 1;
    }
    (offsets, positions)
}

/// Dimensions, owned token ids and stable bucket metadata of one embedding
/// operation.
#[derive(Debug, PartialEq, Eq)]
pub struct EmbeddingPlan {
    n: u32,
    vocab: u32,
    dim: u32,
    op: EmbeddingOp,
    ids: Vec<u32>,
    offsets: Vec<u32>,
    positions: Vec<u32>,
    primary_len: usize,
    output_len: usize,
    dispatch_groups: [u32; 3],
}

impl View for EmbeddingPlan {
    type V = EmbeddingRequest;

    closed spec fn view(&self) -> EmbeddingRequest {
        EmbeddingRequest {
            n: self.n,
            vocab: self.vocab,
            dim: self.dim,
            op: self.op,
            ids: Seq::new(self.ids@.len(), |i: int| self.ids@[i] as i64),
        }
    }
}

impl Clone for EmbeddingPlan {
    fn clone(&self) -> (r: Self)
        ensures
            r@ == self@,
    {
        proof {
            use_type_invariant(self);
        }
        let ids: Vec<u32> = self.ids.clone();
        let offsets: Vec<u32> = self.offsets.clone();
        let positions: Vec<u32> = self.positions.clone();
        proof {
            assert(ids@ =~= self.ids@);
            assert(offsets@ =~= self.offsets@);
            assert(positions@ =~= self.positions@);
        }
        EmbeddingPlan {
            n: self.n,
            vocab: self.vocab,
            dim: self.dim,
            op: self.op,
            ids,
            offsets,
            positions,
            primary_len: self.primary_len,
            output_len: self.output_len,
            dispatch_groups: self.dispatch_groups,
        }
    }
}

impl EmbeddingPlan {
    #[verifier::type_invariant]
    spec fn admitted(self) -> bool {
        let q = self@;
        &&& q.refusal() is None
        &&& self.ids@ == q.words()
        &&& q.is_offsets(self.offsets@)
        &&& q.is_positions(self.positions@)
        &&& self.primary_len == q.primary_len()
        &&& self.output_len == q.output_len()
        &&& self.dispatch_groups@ == q.groups()
    }

    pub fn new(n: u32, vocab: u32, dim: u32, op: EmbeddingOp, ids: &[i64]) -> (r: Result<
        Self,
        EmbeddingPlanError,
    >)
        ensures
            ({
                let q = EmbeddingRequest { n, vocab, dim, op, ids: ids@ };
                match q.refusal() {
                    Some(e) => r is Err && r->Err_0 == e,
                    None => r is Ok && r->Ok_0@ == q,
                }
            }),
    {
        let ghost q = EmbeddingRequest { n, vocab, dim, op, ids: ids@ };
        if n == 0 || n > MAX_N || vocab == 0 || vocab > MAX_VOCAB || dim == 0 || dim > MAX_DIM {
            return Err(EmbeddingPlanError::DimensionOutOfRange);
        }
        let token_elements: usize = match checked_elements(n, dim) {
            Ok(count) => count,
            Err(e) => return Err(e),
        };
        let table_elements: usize = match checked_elements(vocab, dim) {
            Ok(count) => count,
            Err(e) => return Err(e),
        };
        if ids.len() != n as usize {
            return Err(EmbeddingPlanError::IndexShapeMismatch);
        }
        let mut narrowed: Vec<u32> = Vec::new();
        let mut i: usize = 0;
        while i < ids.len()
            invariant
                i <= ids.len(),
                ids.len() == n,
                q == (EmbeddingRequest { n, vocab, dim, op, ids: ids@ }),
                1 <= n <= MAX_N,
                1 <= vocab <= MAX_VOCAB,
                1 <= dim <= MAX_DIM,
                n * dim <= MAX_ELEMENTS,
                vocab * dim <= MAX_ELEMENTS,
                narrowed@.len() == i,
                forall|j: int| 0 <= j < i ==> !#[trigger] q.stray(j),
                forall|j: int| 0 <= j < i ==> #[trigger] narrowed@[j] == ids@[j],
            decreases ids.len() - i,
        {
            let id: i64 = ids[i];
            if id < 0 || id >= vocab as i64 {
                proof {
                    assert(q.stray(i as int));
                }
                return Err(EmbeddingPlanError::IndexOutOfRange);
            }
            narrowed.push(id as u32);
            i += 1;
        }
        proof {
            assert(narrowed@ =~= q.words());
            assert forall|j: int| 0 <= j < narrowed@.len() implies #[trigger] narrowed@[j] < vocab by {
                assert(!q.stray(j));
            }
        }
        let (offsets, positions): (Vec<u32>, Vec<u32>) = group_by_id(&narrowed, vocab);
        let (primary_len, output_len): (usize, usize) = match op {
            EmbeddingOp::Gather => (table_elements, token_elements),
            EmbeddingOp::Backward => (token_elements, table_elements),
        };
        let dispatch_groups: [u32; 3] = [div_ceil(output_len as u32, WORKGROUP_SIZE), 1, 1];
        proof {
            assert(dispatch_groups@ =~= q.groups());
            assert(Seq::new(narrowed@.len(), |i: int| narrowed@[i] as i64) =~= ids@);
        }
        Ok(
            EmbeddingPlan {
                n,
                vocab,
                dim,
                op,
                ids: narrowed,
                offsets,
                positions,
                primary_len,
                output_len,
                dispatch_groups,
            },
        )
    }

    /// Check the length and every value, given by its bits.
    pub fn validate_inputs(&self, primary: &[u32]) -> (r: Result<(), EmbeddingPlanError>)
        ensures
            r == (if primary.len() != self@.primary_len() {
                Err::<(), EmbeddingPlanError>(EmbeddingPlanError::ShapeMismatch)
            } else if exists|i: int| 0 <= i < primary.len() && !finite(#[trigger] primary@[i]) {
                Err(EmbeddingPlanError::NonfiniteInput)
            } else {
                Ok(())
            }),
    {
        proof {
            use_type_invariant(self);
        }
        if primary.len() != self.primary_len {
            return Err(EmbeddingPlanError::ShapeMismatch);
        }
        let mut i: usize = 0;
        while i < primary.len()
            invariant
                i <= primary.len(),
                primary.len() == self@.primary_len(),
                forall|j: int| 0 <= j < i ==> finite(#[trigger] primary@[j]),
            decreases primary.len() - i,
        {
            if !is_finite(primary[i]) {
                return Err(EmbeddingPlanError::NonfiniteInput);
            }
            i += 1;
        }
        Ok(())
    }

    pub fn n(&self) -> (r: u32)
        ensures
            r == self@.n,
    {
        self.n
    }

    pub fn vocab(&self) -> (r: u32)
        ensures
            r == self@.vocab,
    {
        self.vocab
    }

    pub fn dim(&self) -> (r: u32)
        ensures
            r == self@.dim,
    {
        self.dim
    }

    pub fn op(&self) -> (r: EmbeddingOp)
        ensures
            r == self@.op,
    {
        self.op
    }

    pub fn ids(&self) -> (r: &[u32])
        ensures
            r@ == self@.words(),
    {
        proof {
            use_type_invariant(self);
        }
        self.ids.as_slice()
    }

    /// Where each vocabulary id's bucket begins, and where the last ends.
    pub fn offsets(&self) -> (r: &[u32])
        ensures
            self@.is_offsets(r@),
    {
        proof {
            use_type_invariant(self);
        }
        self.offsets.as_slice()
    }

    /// Token positions grouped by id, in their original order within an id.
    pub fn positions(&self) -> (r: &[u32])
        ensures
            self@.is_positions(r@),
    {
        proof {
            use_type_invariant(self);
        }
        self.positions.as_slice()
    }

    pub fn primary_len(&self) -> (r: usize)
        ensures
            r == self@.primary_len(),
    {
        proof {
            use_type_invariant(self);
        }
        self.primary_len
    }

    pub fn output_len(&self) -> (r: usize)
        ensures
            r == self@.output_len(),
    {
        proof {
            use_type_invariant(self);
        }
        self.output_len
    }

    pub fn dispatch_groups(&self) -> (r: [u32; 3])
        ensures
            r@ == self@.groups(),
    {
        proof {
            use_type_invariant(self);
        }
        self.dispatch_groups
    }

    /// The index image: the gather's ids, or the backward's grouped positions.
    pub fn index_bytes(&self) -> (r: Vec<u8>)
        ensures
            match self@.op {
                EmbeddingOp::Gather => r@ == words_bytes(self@.words()),
                EmbeddingOp::Backward => exists|positions: Seq<u32>|
                    #[trigger] self@.is_positions(positions) && r@ == words_bytes(positions),
            },
    {
        proof {
            use_type_invariant(self);
        }
        match self.op {
            EmbeddingOp::Gather => words_to_bytes(self.ids.as_slice()),
            EmbeddingOp::Backward => words_to_bytes(self.positions.as_slice()),
        }
    }

    /// The offset image: one unread word for the gather, or the backward's
    /// bucket offsets.
    pub fn offset_bytes(&self) -> (r: Vec<u8>)
        ensures
            match self@.op {
                EmbeddingOp::Gather => r@ == words_bytes(seq![0u32]),
                EmbeddingOp::Backward => exists|offsets: Seq<u32>|
                    #[trigger] self@.is_offsets(offsets) && r@ == words_bytes(offsets),
            },
    {
        proof {
            use_type_invariant(self);
        }
        match self.op {
            EmbeddingOp::Gather => {
                let dummy: [u32; 1] = [0];
                proof {
                    assert(dummy@ =~= seq![0u32]);
                }
                words_to_bytes(&dummy)
            },
            EmbeddingOp::Backward => words_to_bytes(self.offsets.as_slice()),
        }
    }

    /// The push block: n, vocab, dim, operation.
    pub fn push_constants(&self) -> (r: [u8; 16])
        ensures
            r@ == words_bytes(seq![self@.n, self@.vocab, self@.dim, self@.op.word()]),
            r@ == words_bytes(self@.push_words()),
            word_at(r@, 0) == self@.n,
            word_at(r@, 1) == self@.vocab,
            word_at(r@, 2) == self@.dim,
            word_at(r@, 3) == self@.op.word(),
    {
        let words: [u32; 4] = [self.n, self.vocab, self.dim, self.op as u32];
        proof {
            assert(words@ =~= seq![self@.n, self@.vocab, self@.dim, self@.op.word()]);
            law_words_read_back(words@);
        }
        block(words)
    }
}

/// At most one sequence holds each token's position at its slot.
pub proof fn law_positions_are_determined(q: EmbeddingRequest, a: Seq<u32>, b: Seq<u32>)
    requires
        q.refusal() is None,
        q.is_positions(a),
        q.is_positions(b),
    ensures
        a == b,
{
    let ids = q.words();
    assert forall|i: int| 0 <= i < ids.len() implies #[trigger] ids[i] < q.vocab by {
        assert(!q.stray(i));
    }
    assert forall|s: int| 0 <= s < a.len() implies a[s] == b[s] by {
        let v = lemma_bucket_of(ids, s, q.vocab as int);
        let i = law_bucket_is_full(ids, v, s);
        assert(a[slot(ids, i)] == i && b[slot(ids, i)] == i);
    }
    assert(a =~= b);
}

/// The bucket that a place among the grouped positions lies in.
proof fn lemma_bucket_of(ids: Seq<u32>, s: int, bound: int) -> (v: int)
    requires
        0 <= s < ids.len(),
        bound >= 0,
        forall|i: int| 0 <= i < ids.len() ==> #[trigger] ids[i] < bound,
    ensures
        0 <= v < bound,
        bucket_start(ids, v) <= s < bucket_start(ids, v + 1),
{
    lemma_below_all(ids, bound, ids.len());
    lemma_below_zero(ids, ids.len());
    lemma_bucket_search(ids, s, bound)
}

proof fn lemma_below_all(ids: Seq<u32>, bound: int, k: nat)
    requires
        k <= ids.len(),
        forall|i: int| 0 <= i < ids.len() ==> #[trigger] ids[i] < bound,
    ensures
        below(ids, bound, k) == k,
    decreases k,
{
    if k > 0 {
        lemma_below_all(ids, bound, (k - 1) as nat);
        assert(ids[k - 1] < bound);
    }
}

proof fn lemma_bucket_search(ids: Seq<u32>, s: int, top: int) -> (v: int)
    requires
        top >= 0,
        bucket_start(ids, 0) <= s < bucket_start(ids, top),
    ensures
        0 <= v < top,
        bucket_start(ids, v) <= s < bucket_start(ids, v + 1),
    decreases top,
{
    if top == 0 {
        0
    } else if bucket_start(ids, top - 1) <= s {
        top - 1
    } else {
        lemma_bucket_search(ids, s, top - 1)
    }
}

/// The element count of `rows` rows, within the limit.
pub fn checked_elements(rows: u32, dim: u32) -> (r: Result<usize, EmbeddingPlanError>)
    ensures
        rows * dim > MAX_ELEMENTS ==> r == Err::<usize, EmbeddingPlanError>(
            EmbeddingPlanError::ElementLimitExceeded,
        ),
        rows * dim <= MAX_ELEMENTS ==> r is Ok && r->Ok_0 == rows * dim,
{
    proof {
        assert(0 <= rows * dim <= 0xffff_ffff * 0xffff_ffff) by (nonlinear_arith)
            requires
                0 <= rows <= 0xffff_ffff,
                0 <= dim <= 0xffff_ffff,
        ;
    }
    let count: u64 = (rows as u64) * (dim as u64);
    if count > MAX_ELEMENTS as u64 {
        Err(EmbeddingPlanError::ElementLimitExceeded)
    } else {
        Ok(count as usize)
    }
}

proof fn lemma_below_is_a_set(ids: Seq<u32>, v: int, k: nat)
    requires
        k <= ids.len(),
    ensures
        ({
            let s = Set::new(|i: int| 0 <= i < k && ids[i] < v);
            s.finite() && s.len() == below(ids, v, k)
        }),
    decreases k,
{
    let s = Set::new(|i: int| 0 <= i < k && ids[i] < v);
    if k == 0 {
        assert(s =~= Set::<int>::empty());
    } else {
        let before = Set::new(|i: int| 0 <= i < k - 1 && ids[i] < v);
        lemma_below_is_a_set(ids, v, (k - 1) as nat);
        if ids[k - 1] < v {
            assert(s =~= before.insert(k - 1));
        } else {
            assert(s =~= before);
        }
    }
}

/// A bucket begins after as many places as there are tokens with a smaller id.
pub proof fn law_bucket_starts_after_every_smaller_id(ids: Seq<u32>, v: int)
    ensures
        Set::new(|i: int| 0 <= i < ids.len() && ids[i] < v).finite(),
        bucket_start(ids, v) == Set::new(|i: int| 0 <= i < ids.len() && ids[i] < v).len(),
{
    lemma_below_is_a_set(ids, v, ids.len());
}

/// The grouped positions are the tokens in order of their ids, and in their own
/// order where ids are equal; the offsets begin at zero, end with the count, and
/// between an id's two lie exactly that id's tokens.
pub proof fn law_grouped_positions_are_a_stable_sort(
    q: EmbeddingRequest,
    positions: Seq<u32>,
    offsets: Seq<u32>,
    s: int,
    t: int,
)
    requires
        q.refusal() is None,
        q.is_positions(positions),
        q.is_offsets(offsets),
        0 <= s < t < q.n,
    ensures
        positions.len() == q.n,
        offsets.len() == q.vocab + 1,
        positions[s] < q.n && positions[t] < q.n,
        q.ids[positions[s] as int] < q.ids[positions[t] as int] || (q.ids[positions[s] as int]
            == q.ids[positions[t] as int] && positions[s] < positions[t]),
        offsets[0] == 0,
        offsets[q.vocab as int] == q.n,
        offsets[q.ids[positions[s] as int] as int] <= s < offsets[q.ids[positions[s] as int] + 1],
{
    let ids = q.words();
    assert forall|i: int| 0 <= i < ids.len() implies #[trigger] ids[i] < q.vocab && ids[i]
        == q.ids[i] by {
        assert(!q.stray(i));
    }
    let u = lemma_bucket_of(ids, s, q.vocab as int);
    let i = law_bucket_is_full(ids, u, s);
    let v = lemma_bucket_of(ids, t, q.vocab as int);
    let j = law_bucket_is_full(ids, v, t);
    assert(positions[slot(ids, i)] == i && positions[slot(ids, j)] == j);
    if !(ids[i] < ids[j] || (ids[i] == ids[j] && i < j)) {
        law_grouping_is_stable(ids, j, i);
    }
    lemma_below_zero(ids, ids.len());
    lemma_below_all(ids, q.vocab as int, ids.len());
    assert(offsets[0] == bucket_start(ids, 0));
    assert(offsets[q.vocab as int] == bucket_start(ids, q.vocab as int));
    assert(offsets[u] == bucket_start(ids, u) && offsets[u + 1] == bucket_start(ids, u + 1));
}

/// The operations are numbered 0 and 1, and no other word names one.
pub proof fn law_operations_are_numbered(op: EmbeddingOp, word: u32)
    ensures
        op is Gather <==> op.word() == 0,
        op is Backward <==> op.word() == 1,
        EmbeddingOp::decode(op.word()) == Some(op),
        EmbeddingOp::decode(word) is Some <==> word <= 1,
        EmbeddingOp::decode(word) matches Some(x) ==> x.word() == word,
{
}

/// The gather reads the table and writes a row per token; the backward reads a
/// row per token and writes the table.
pub proof fn law_lengths_follow_the_operation(q: EmbeddingRequest)
    ensures
        q.op is Gather ==> q.primary_len() == q.vocab * q.dim && q.output_len() == q.n * q.dim,
        q.op is Backward ==> q.primary_len() == q.n * q.dim && q.output_len() == q.vocab * q.dim,
{
}

/// The grid has a workgroup for every 64 values written.
pub proof fn law_grid_has_a_workgroup_per_sixty_four_values(q: EmbeddingRequest)
    requires
        q.refusal() is None,
    ensures
        q.groups().len() == 3,
        (q.groups()[0] - 1) * 64 < q.output_len() <= q.groups()[0] * 64,
        q.groups()[1] == 1 && q.groups()[2] == 1,
{
    law_grid_covers_the_output(q);
}

/// The accepted requests: extents in range, at most 2^30 values on either side,
/// one id per token, and every id in the vocabulary; what fails first is the
/// refusal.
pub proof fn law_requests_are_admitted_exactly_when_consistent(q: EmbeddingRequest)
    ensures
        ({
            let sized = 1 <= q.n <= 65536 && 1 <= q.vocab <= 262144 && 1 <= q.dim <= 16384;
            let few = q.n * q.dim <= 1073741824 && q.vocab * q.dim <= 1073741824;
            let paired = q.ids.len() == q.n;
            let known = forall|i: int|
                0 <= i < q.ids.len() ==> 0 <= #[trigger] q.ids[i] < q.vocab;
            &&& q.refusal() is None <==> sized && few && paired && known
            &&& q.refusal() == Some(EmbeddingPlanError::DimensionOutOfRange) <==> !sized
            &&& q.refusal() == Some(EmbeddingPlanError::ElementLimitExceeded) <==> sized && !few
            &&& q.refusal() == Some(EmbeddingPlanError::IndexShapeMismatch) <==> sized && few
                && !paired
            &&& q.refusal() == Some(EmbeddingPlanError::IndexOutOfRange) <==> sized && few && paired
                && !known
        }),
{
    if forall|i: int| 0 <= i < q.ids.len() ==> 0 <= #[trigger] q.ids[i] < q.vocab {
        assert forall|i: int| 0 <= i < q.ids.len() implies !#[trigger] q.stray(i) by {
            assert(0 <= q.ids[i] < q.vocab);
        }
    } else {
        let i = choose|i: int| 0 <= i < q.ids.len() && !(0 <= #[trigger] q.ids[i] < q.vocab);
        assert(q.stray(i));
    }
}

/// The gather's image is the ids themselves, a word each.
pub proof fn law_id_words_are_the_ids(q: EmbeddingRequest, i: int)
    requires
        q.refusal() is None,
        0 <= i < q.n,
    ensures
        q.words().len() == q.n,
        q.words()[i] == q.ids[i],
        word_at(words_bytes(q.words()), i) == q.ids[i],
{
    assert(!q.stray(i));
    law_words_read_back(q.words());
}

/// The push block is four words: the tokens, the vocabulary, the width and the
/// operation.
pub proof fn law_push_block_holds_the_request(q: EmbeddingRequest)
    ensures
        ({
            let w = words_bytes(q.push_words());
            &&& w.len() == 16
            &&& word_at(w, 0) == q.n
            &&& word_at(w, 1) == q.vocab
            &&& word_at(w, 2) == q.dim
            &&& q.op is Gather <==> word_at(w, 3) == 0
            &&& q.op is Backward <==> word_at(w, 3) == 1
        }),
{
    law_words_read_back(q.push_words());
}

/// The offsets begin at zero and end with the number of tokens.
pub proof fn law_offsets_span_the_tokens(q: EmbeddingRequest, offsets: Seq<u32>)
    requires
        q.refusal() is None,
        q.is_offsets(offsets),
    ensures
        offsets.len() == q.vocab + 1,
        offsets[0] == 0,
        offsets[q.vocab as int] == q.n,
{
    let ids = q.words();
    assert forall|i: int| 0 <= i < ids.len() implies #[trigger] ids[i] < q.vocab by {
        assert(!q.stray(i));
    }
    lemma_below_zero(ids, ids.len());
    lemma_below_all(ids, q.vocab as int, ids.len());
    assert(offsets[0] == bucket_start(ids, 0));
    assert(offsets[q.vocab as int] == bucket_start(ids, q.vocab as int));
}

/// Each refusal of a plan has its own name.
pub proof fn law_plan_errors_are_named()
    ensures
        EmbeddingPlanError::DimensionOutOfRange.text() == "embedding-dimension-out-of-range"@,
        EmbeddingPlanError::ElementLimitExceeded.text() == "embedding-element-limit-exceeded"@,
        EmbeddingPlanError::OperationOutOfRange.text() == "embedding-operation-out-of-range"@,
        EmbeddingPlanError::IndexShapeMismatch.text() == "embedding-index-shape-mismatch"@,
        EmbeddingPlanError::IndexOutOfRange.text() == "embedding-index-out-of-range"@,
        EmbeddingPlanError::ShapeMismatch.text() == "embedding-input-shape-mismatch"@,
        EmbeddingPlanError::NonfiniteInput.text() == "embedding-nonfinite-input"@,
{
}

} // verus!
