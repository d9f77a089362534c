//! The decision layer of one recorded batch: when a batch is submitted, whether
//! a barrier precedes an item, which descriptor set an item takes, and whether
//! a declared access set agrees with what a kernel is bound to.

use crate::text::{append_decimal, budget, decimal_text, read_budget, trimmed};
use std::collections::BTreeSet;
use vstd::prelude::*;
use vstd::string::*;

verus! {

/// Every reason a recorded batch is submitted.
#[derive(Clone, Copy, Debug, PartialEq, Eq, Hash, Structural)]
pub enum FlushReason {
    /// A download: the copy must see every write recorded before it.
    Readback,
    /// An eager upload: it must not run ahead of what was recorded before it.
    Upload,
    /// A timed dispatch: its duration is a claim about that dispatch alone.
    TimedDispatch,
    /// The last flush point of a device that is closed.
    Close,
    /// A caller that wants the recorded work to have run.
    ExplicitSync,
    /// The batch reached its item budget.
    BatchFull,
    /// A kernel has no free descriptor set left.
    DescriptorsExhausted,
    /// The memory retired into the batch passed its budget.
    RetiredBytes,
    /// Declared, and produced by no code path.
    Accounting,
}

/// Every variant of `FlushReason`, in declaration order.
pub const ALL_FLUSH_REASONS: [FlushReason; 9] = [
    FlushReason::Readback,
    FlushReason::Upload,
    FlushReason::TimedDispatch,
    FlushReason::Close,
    FlushReason::ExplicitSync,
    FlushReason::BatchFull,
    FlushReason::DescriptorsExhausted,
    FlushReason::RetiredBytes,
    FlushReason::Accounting,
];

/// The number of flush reasons.
pub const FLUSH_REASON_COUNT: usize = 9;

impl FlushReason {
    pub open spec fn text(self) -> Seq<char> {
        match self {
            FlushReason::Readback => "Readback"@,
            FlushReason::Upload => "Upload"@,
            FlushReason::TimedDispatch => "TimedDispatch"@,
            FlushReason::Close => "Close"@,
            FlushReason::ExplicitSync => "ExplicitSync"@,
            FlushReason::BatchFull => "BatchFull"@,
            FlushReason::DescriptorsExhausted => "DescriptorsExhausted"@,
            FlushReason::RetiredBytes => "RetiredBytes"@,
            FlushReason::Accounting => "Accounting"@,
        }
    }

    /// The reason's place in `ALL_FLUSH_REASONS`.
    pub open spec fn place(self) -> int {
        match self {
            FlushReason::Readback => 0,
            FlushReason::Upload => 1,
            FlushReason::TimedDispatch => 2,
            FlushReason::Close => 3,
            FlushReason::ExplicitSync => 4,
            FlushReason::BatchFull => 5,
            FlushReason::DescriptorsExhausted => 6,
            FlushReason::RetiredBytes => 7,
            FlushReason::Accounting => 8,
        }
    }
}

/// The stable name of a flush reason.
pub fn flush_reason_name(r: FlushReason) -> (name: &'static str)
    ensures
        name@ == r.text(),
{
    match r {
        FlushReason::Readback => "Readback",
        FlushReason::Upload => "Upload",
        FlushReason::TimedDispatch => "TimedDispatch",
        FlushReason::Close => "Close",
        FlushReason::ExplicitSync => "ExplicitSync",
        FlushReason::BatchFull => "BatchFull",
        FlushReason::DescriptorsExhausted => "DescriptorsExhausted",
        FlushReason::RetiredBytes => "RetiredBytes",
        FlushReason::Accounting => "Accounting",
    }
}

/// The index of a reason in `ALL_FLUSH_REASONS` and in the counter array.
pub fn flush_reason_index(r: FlushReason) -> (i: usize)
    ensures
        i == r.place(),
        i < FLUSH_REASON_COUNT,
{
    match r {
        FlushReason::Readback => 0,
        FlushReason::Upload => 1,
        FlushReason::TimedDispatch => 2,
        FlushReason::Close => 3,
        FlushReason::ExplicitSync => 4,
        FlushReason::BatchFull => 5,
        FlushReason::DescriptorsExhausted => 6,
        FlushReason::RetiredBytes => 7,
        FlushReason::Accounting => 8,
    }
}

/// Distinct reasons have distinct places.
pub proof fn law_reason_places_are_distinct(a: FlushReason, b: FlushReason)
    requires
        a.place() == b.place(),
    ensures
        a == b,
{
}

/// How long each name is, and what tells the two of one length apart.
proof fn lemma_reason_name(r: FlushReason)
    ensures
        r.text().len() == (match r {
            FlushReason::Readback => 8int,
            FlushReason::Upload => 6int,
            FlushReason::TimedDispatch => 13int,
            FlushReason::Close => 5int,
            FlushReason::ExplicitSync => 12int,
            FlushReason::BatchFull => 9int,
            FlushReason::DescriptorsExhausted => 20int,
            FlushReason::RetiredBytes => 12int,
            FlushReason::Accounting => 10int,
        }),
        r is ExplicitSync ==> r.text()[0] == 'E',
        r is RetiredBytes ==> r.text()[0] == 'R',
{
    match r {
        FlushReason::Readback => {
            reveal_strlit("Readback");
        },
        FlushReason::Upload => {
            reveal_strlit("Upload");
        },
        FlushReason::TimedDispatch => {
            reveal_strlit("TimedDispatch");
        },
        FlushReason::Close => {
            reveal_strlit("Close");
        },
        FlushReason::ExplicitSync => {
            reveal_strlit("ExplicitSync");
        },
        FlushReason::BatchFull => {
            reveal_strlit("BatchFull");
        },
        FlushReason::DescriptorsExhausted => {
            reveal_strlit("DescriptorsExhausted");
        },
        FlushReason::RetiredBytes => {
            reveal_strlit("RetiredBytes");
        },
        FlushReason::Accounting => {
            reveal_strlit("Accounting");
        },
    }
}

/// Distinct reasons have distinct names.
pub proof fn law_reason_names_are_distinct(a: FlushReason, b: FlushReason)
    requires
        a.text() == b.text(),
    ensures
        a == b,
{
    lemma_reason_name(a);
    lemma_reason_name(b);
}

/// Whether some code path can produce this reason.
pub fn is_wired(r: FlushReason) -> (wired: bool)
    ensures
        wired == !(r is Accounting),
{
    !matches!(r, FlushReason::Accounting)
}

/// Which items a barrier separates: every item from the one before it, or only
/// those whose declared accesses conflict with what came since the last one.
#[derive(Clone, Copy, Debug, PartialEq, Eq, Structural)]
pub enum BarrierRule {
    Always,
    Declared,
}

impl BarrierRule {
    /// The rule that the text of the tuning variable asks for.
    pub open spec fn asked(value: Option<&str>) -> BarrierRule {
        if value is Some && value->0@ == "always"@ {
            BarrierRule::Always
        } else {
            BarrierRule::Declared
        }
    }

    /// The rule that the text of the tuning variable asks for.
    pub fn from_env(value: Option<&str>) -> (r: Self)
        ensures
            r == BarrierRule::asked(value),
    {
        match value {
            Some(v) => if str_eq(v, "always") {
                BarrierRule::Always
            } else {
                BarrierRule::Declared
            },
            None => BarrierRule::Declared,
        }
    }
}

/// Whether two texts are the same.
pub(crate) fn str_eq(a: &str, b: &str) -> (r: bool)
    ensures
        r == (a@ == b@),
{
    let n: usize = a.unicode_len();
    if n != b.unicode_len() {
        return false;
    }
    let mut i: usize = 0;
    while i < n
        invariant
            i <= n,
            n == a@.len(),
            n == b@.len(),
            forall|j: int| 0 <= j < i ==> a@[j] == b@[j],
        decreases n - i,
    {
        if a.get_char(i) != b.get_char(i) {
            return false;
        }
        i += 1;
    }
    proof {
        assert(a@ =~= b@);
    }
    true
}

/// Items recorded into one batch before it is submitted.
pub const MAX_RECORDED_ITEMS: u32 = 128;

/// Items in the first batch after a completing flush; the next takes twice as
/// many, up to the budget.
pub const RAMP_FIRST: u32 = 16;

/// Descriptor sets allocated per kernel and batch.
pub const SETS_PER_KERNEL_POOL: u32 = 512;

/// Device bytes retired into an open batch before it is flushed.
pub const MAX_RETIRED_BYTES: u64 = 1_073_741_824;

/// Whether a declared buffer access reads or writes.
#[derive(Clone, Copy, Debug, PartialEq, Eq, Structural)]
pub enum AccessKind {
    Read,
    Write,
}

/// One buffer a dispatch declares it touches, named by its id. A slot that the
/// operation does not use is declared `Read`.
#[derive(Clone, Copy, Debug, PartialEq, Eq, Structural)]
pub struct Access {
    pub buffer: u64,
    pub kind: AccessKind,
}

impl Access {
    pub fn read(buffer: u64) -> (r: Self)
        ensures
            r == (Access { buffer, kind: AccessKind::Read }),
    {
        Access { buffer, kind: AccessKind::Read }
    }

    pub fn write(buffer: u64) -> (r: Self)
        ensures
            r == (Access { buffer, kind: AccessKind::Write }),
    {
        Access { buffer, kind: AccessKind::Write }
    }
}

/// The buffers a declaration writes.
pub open spec fn writes(access: Seq<Access>) -> Set<u64> {
    Set::new(
        |b: u64|
            exists|i: int|
                0 <= i < access.len() && #[trigger] access[i] == (Access {
                    buffer: b,
                    kind: AccessKind::Write,
                }),
    )
}

/// The buffers a declaration reads.
pub open spec fn reads(access: Seq<Access>) -> Set<u64> {
    Set::new(
        |b: u64|
            exists|i: int|
                0 <= i < access.len() && #[trigger] access[i] == (Access {
                    buffer: b,
                    kind: AccessKind::Read,
                }),
    )
}

/// What a `BatchPlan` holds.
#[verifier::ext_equal]
pub ghost struct BatchModel {
    pub items: u32,
    pub barriers: u32,
    pub written: Set<u64>,
    pub read: Set<u64>,
    pub rule: BarrierRule,
    pub first_seq: u64,
    pub next_seq: u64,
    pub retired_bytes: u64,
    pub retired_objects: u64,
    pub max_items: u32,
    pub max_retired_bytes: u64,
}

impl BatchModel {
    /// Sequence numbers follow the items, and every barrier stands between two
    /// items.
    pub open spec fn wf(self) -> bool {
        &&& self.next_seq == self.first_seq + self.items
        &&& self.barriers <= self.items
        &&& self.items > 0 ==> self.barriers < self.items
        &&& self.max_items >= 1
    }

    /// A declaration touches a buffer written since the last barrier, or writes
    /// one read since it.
    pub open spec fn conflicts(self, access: Seq<Access>) -> bool {
        exists|i: int|
            0 <= i < access.len() && (self.written.contains((#[trigger] access[i]).buffer) || (
            access[i].kind is Write && self.read.contains(access[i].buffer)))
    }

    /// Whether an item with this declaration is preceded by a barrier.
    pub open spec fn needs_barrier(self, access: Seq<Access>) -> bool {
        self.items > 0 && (self.rule is Always || access.len() == 0 || self.conflicts(access))
    }

    /// The plan once an item with this declaration is recorded.
    pub open spec fn recorded(self, access: Seq<Access>) -> BatchModel {
        let fresh = self.needs_barrier(access);
        BatchModel {
            items: (self.items + 1) as u32,
            barriers: if fresh {
                (self.barriers + 1) as u32
            } else {
                self.barriers
            },
            written: if fresh {
                writes(access)
            } else {
                self.written.union(writes(access))
            },
            read: if fresh {
                reads(access)
            } else {
                self.read.union(reads(access))
            },
            next_seq: (self.next_seq + 1) as u64,
            ..self
        }
    }

    /// Whether a transfer that writes `buffer` is preceded by a barrier.
    pub open spec fn transfer_needs_barrier(self, buffer: u64) -> bool {
        self.items > 0 && (self.rule is Always || self.written.contains(buffer)
            || self.read.contains(buffer))
    }

    /// The plan once a transfer that writes `buffer` is recorded.
    pub open spec fn transferred(self, buffer: u64) -> BatchModel {
        if self.transfer_needs_barrier(buffer) {
            BatchModel { written: set![buffer], read: Set::empty(), ..self }
        } else {
            BatchModel { written: self.written.insert(buffer), ..self }
        }
    }

    pub open spec fn due(self) -> Option<FlushReason> {
        if self.items >= self.max_items {
            Some(FlushReason::BatchFull)
        } else {
            None
        }
    }

    /// The plan once objects holding `bytes` are retired into it.
    pub open spec fn retired(self, bytes: u64, objects: u64) -> BatchModel {
        BatchModel {
            retired_bytes: self.retired_bytes.saturating_add(bytes),
            retired_objects: self.retired_objects.saturating_add(objects),
            ..self
        }
    }

    pub open spec fn over_budget(self) -> Option<FlushReason> {
        if self.retired_bytes > self.max_retired_bytes {
            Some(FlushReason::RetiredBytes)
        } else {
            None
        }
    }

    /// The batch's description in the message of a failed flush.
    pub open spec fn description(self, reason: FlushReason) -> Seq<char> {
        "reason "@ + reason.text() + ", "@ + decimal_text(self.items as nat)
            + " recorded dispatch(es), "@ + decimal_text(self.barriers as nat)
            + " barrier(s), sequence "@ + decimal_text(self.first_seq as nat) + ".."@ + decimal_text(
            self.next_seq.saturating_sub(1) as nat,
        ) + ", "@ + decimal_text(self.retired_objects as nat) + " retired object(s) holding "@
            + decimal_text(self.retired_bytes as nat) + " byte(s)"@
    }
}

/// A fresh plan.
pub open spec fn opened(
    rule: BarrierRule,
    first_seq: u64,
    max_items: u32,
    max_retired_bytes: u64,
) -> BatchModel {
    BatchModel {
        items: 0,
        barriers: 0,
        written: Set::empty(),
        read: Set::empty(),
        rule,
        first_seq,
        next_seq: first_seq,
        retired_bytes: 0,
        retired_objects: 0,
        max_items: if max_items == 0 {
            1
        } else {
            max_items
        },
        max_retired_bytes,
    }
}

/// The plan after a row of items.
pub open spec fn recorded_all(m: BatchModel, items: Seq<Seq<Access>>) -> BatchModel
    decreases items.len(),
{
    if items.len() == 0 {
        m
    } else {
        recorded_all(m, items.drop_last()).recorded(items.last())
    }
}

/// A fresh batch records at most one barrier fewer than items, and exactly
/// that many where every item must be separated from the one before it.
pub proof fn law_barriers_are_at_most_items_less_one(m: BatchModel, items: Seq<Seq<Access>>)
    requires
        m.items == 0,
        m.wf(),
        items.len() <= u32::MAX,
        m.first_seq + items.len() <= u64::MAX,
    ensures
        recorded_all(m, items).wf(),
        recorded_all(m, items).items == items.len(),
        items.len() > 0 ==> recorded_all(m, items).barriers <= items.len() - 1,
        items.len() > 0 && (m.rule is Always || forall|i: int|
            0 <= i < items.len() ==> (#[trigger] items[i]).len() == 0) ==> recorded_all(
            m,
            items,
        ).barriers == items.len() - 1,
        recorded_all(m, items).rule == m.rule,
        recorded_all(m, items).first_seq == m.first_seq,
        recorded_all(m, items).max_items == m.max_items,
    decreases items.len(),
{
    if items.len() > 0 {
        law_barriers_are_at_most_items_less_one(m, items.drop_last());
        assert forall|i: int| 0 <= i < items.len() - 1 implies items.drop_last()[i] == items[i] by {}
    }
}

/// Two declarations name a buffer that one of them writes.
pub open spec fn hazard(a: Seq<Access>, b: Seq<Access>, buffer: u64) -> bool {
    (writes(a).contains(buffer) && (writes(b).contains(buffer) || reads(b).contains(buffer))) || (
    reads(a).contains(buffer) && writes(b).contains(buffer))
}

/// Whether a barrier is recorded before the item at `k`.
pub open spec fn separated_at(m: BatchModel, items: Seq<Seq<Access>>, k: int) -> bool {
    recorded_all(m, items.take(k)).needs_barrier(items[k])
}

/// Any two items of a batch that have a hazard between them (read after write,
/// write after write or write after read) are separated, under either rule: a
/// barrier is recorded before the later one or before an item between them.
pub proof fn law_conflicting_items_are_separated(
    m: BatchModel,
    items: Seq<Seq<Access>>,
    i: int,
    j: int,
    buffer: u64,
)
    requires
        0 <= i < j < items.len(),
        m.items + j <= u32::MAX,
        hazard(items[i], items[j], buffer),
    ensures
        exists|k: int| i < k <= j && #[trigger] separated_at(m, items, k),
{
    if !exists|k: int| i < k < j && #[trigger] separated_at(m, items, k) {
        lemma_unseparated_items(m, items, i, j);
        let before = recorded_all(m, items.take(j));
        let later = items[j];
        let kind = if writes(later).contains(buffer) {
            AccessKind::Write
        } else {
            AccessKind::Read
        };
        let n = choose|n: int|
            0 <= n < later.len() && #[trigger] later[n] == (Access { buffer, kind });
        assert(later[n].buffer == buffer);
        assert(before.conflicts(later));
        assert(separated_at(m, items, j));
    }
}

/// While no barrier follows an item, what it declared is remembered.
proof fn lemma_unseparated_items(m: BatchModel, items: Seq<Seq<Access>>, i: int, n: int)
    requires
        0 <= i < n <= items.len(),
        m.items + n <= u32::MAX,
        forall|k: int| i < k < n ==> !#[trigger] separated_at(m, items, k),
    ensures
        recorded_all(m, items.take(n)).items == m.items + n,
        writes(items[i]).subset_of(recorded_all(m, items.take(n)).written),
        reads(items[i]).subset_of(recorded_all(m, items.take(n)).read),
    decreases n,
{
    lemma_item_count(m, items, n - 1);
    assert(items.take(n).drop_last() =~= items.take(n - 1));
    assert(items.take(n).last() == items[n - 1]);
    if n > i + 1 {
        lemma_unseparated_items(m, items, i, n - 1);
        assert(!separated_at(m, items, n - 1));
    }
}

proof fn lemma_item_count(m: BatchModel, items: Seq<Seq<Access>>, n: int)
    requires
        0 <= n <= items.len(),
        m.items + n <= u32::MAX,
    ensures
        recorded_all(m, items.take(n)).items == m.items + n,
    decreases n,
{
    if n > 0 {
        lemma_item_count(m, items, n - 1);
        assert(items.take(n).drop_last() =~= items.take(n - 1));
    }
}

/// A batch is due exactly from the item that reaches its budget.
pub proof fn law_batch_is_due_at_its_budget(m: BatchModel, items: Seq<Seq<Access>>)
    requires
        m.items == 0,
        m.wf(),
        items.len() <= u32::MAX,
        m.first_seq + items.len() <= u64::MAX,
    ensures
        recorded_all(m, items).due() is Some <==> items.len() >= m.max_items,
{
    law_barriers_are_at_most_items_less_one(m, items);
}

/// The state of one open batch, with no driver handle in it.
#[derive(Debug)]
pub struct BatchPlan {
    items: u32,
    barriers: u32,
    written_since_barrier: BTreeSet<u64>,
    read_since_barrier: BTreeSet<u64>,
    barrier_rule: BarrierRule,
    first_seq: u64,
    next_seq: u64,
    retired_bytes: u64,
    retired_objects: u64,
    max_items: u32,
    max_retired_bytes: u64,
}

impl View for BatchPlan {
    type V = BatchModel;

    closed spec fn view(&self) -> BatchModel {
        BatchModel {
            items: self.items,
            barriers: self.barriers,
            written: self.written_since_barrier@,
            read: self.read_since_barrier@,
            rule: self.barrier_rule,
            first_seq: self.first_seq,
            next_seq: self.next_seq,
            retired_bytes: self.retired_bytes,
            retired_objects: self.retired_objects,
            max_items: self.max_items,
            max_retired_bytes: self.max_retired_bytes,
        }
    }
}

impl Clone for BatchPlan {
    fn clone(&self) -> (r: Self)
        ensures
            r@ == self@,
    {
        BatchPlan {
            items: self.items,
            barriers: self.barriers,
            written_since_barrier: self.written_since_barrier.clone(),
            read_since_barrier: self.read_since_barrier.clone(),
            barrier_rule: self.barrier_rule,
            first_seq: self.first_seq,
            next_seq: self.next_seq,
            retired_bytes: self.retired_bytes,
            retired_objects: self.retired_objects,
            max_items: self.max_items,
            max_retired_bytes: self.max_retired_bytes,
        }
    }
}

impl BatchPlan {
    /// Open a batch whose first item will carry sequence number `first_seq`,
    /// under the barrier rule that the text of the tuning variable asks for. A
    /// budget of no items counts as one.
    pub fn new(
        first_seq: u64,
        max_items: u32,
        max_retired_bytes: u64,
        barriers: Option<&str>,
    ) -> (r: Self)
        ensures
            r@ == opened(
                BarrierRule::asked(barriers),
                first_seq,
                max_items,
                max_retired_bytes,
            ),
            r@.wf(),
    {
        BatchPlan::with_rule(
            BarrierRule::from_env(barriers),
            first_seq,
            max_items,
            max_retired_bytes,
        )
    }

    /// As `new`, under a given barrier rule.
    pub fn with_rule(
        barrier_rule: BarrierRule,
        first_seq: u64,
        max_items: u32,
        max_retired_bytes: u64,
    ) -> (r: Self)
        ensures
            r@ == opened(barrier_rule, first_seq, max_items, max_retired_bytes),
            r@.wf(),
    {
        BatchPlan {
            items: 0,
            barriers: 0,
            written_since_barrier: BTreeSet::new(),
            read_since_barrier: BTreeSet::new(),
            barrier_rule,
            first_seq,
            next_seq: first_seq,
            retired_bytes: 0,
            retired_objects: 0,
            max_items: if max_items == 0 {
                1
            } else {
                max_items
            },
            max_retired_bytes,
        }
    }

    /// Record one item that declares nothing; it is separated from every item
    /// before it.
    pub fn record(&mut self) -> (r: bool)
        requires
            old(self)@.wf(),
            old(self)@.items < u32::MAX,
            old(self)@.next_seq < u64::MAX,
        ensures
            final(self)@ == old(self)@.recorded(Seq::empty()),
            final(self)@.wf(),
            r == (old(self)@.items > 0),
    {
        let none: [Access; 0] = [];
        proof {
            assert(none@ =~= Seq::<Access>::empty());
        }
        self.record_with(&none)
    }

    /// Record one item that declares `access`, and say whether a barrier must
    /// precede it. A declaration of nothing counts as a conflict.
    pub fn record_with(&mut self, access: &[Access]) -> (r: bool)
        requires
            old(self)@.wf(),
            old(self)@.items < u32::MAX,
            old(self)@.next_seq < u64::MAX,
        ensures
            final(self)@ == old(self)@.recorded(access@),
            final(self)@.wf(),
            r == old(self)@.needs_barrier(access@),
    {
        let first: bool = self.items == 0;
        let separated: bool = match self.barrier_rule {
            BarrierRule::Always => true,
            BarrierRule::Declared => access.len() == 0 || self.conflicts_with(access),
        };
        let needs_barrier: bool = !first && separated;
        if needs_barrier {
            self.barriers += 1;
            self.written_since_barrier.clear();
            self.read_since_barrier.clear();
        }
        let ghost w0 = self.written_since_barrier@;
        let ghost r0 = self.read_since_barrier@;
        let ghost at_loop = *self;
        let mut i: usize = 0;
        proof {
            assert(writes(access@.take(0)) =~= Set::<u64>::empty());
            assert(reads(access@.take(0)) =~= Set::<u64>::empty());
            assert(w0.union(writes(access@.take(0))) =~= w0);
            assert(r0.union(reads(access@.take(0))) =~= r0);
        }
        while i < access.len()
            invariant
                i <= access.len(),
                self.written_since_barrier@ == w0.union(writes(access@.take(i as int))),
                self.read_since_barrier@ == r0.union(reads(access@.take(i as int))),
                self.items == at_loop.items,
                self.barriers == at_loop.barriers,
                self.barrier_rule == at_loop.barrier_rule,
                self.first_seq == at_loop.first_seq,
                self.next_seq == at_loop.next_seq,
                self.retired_bytes == at_loop.retired_bytes,
                self.retired_objects == at_loop.retired_objects,
                self.max_items == at_loop.max_items,
                self.max_retired_bytes == at_loop.max_retired_bytes,
            decreases access.len() - i,
        {
            proof {
                lemma_take_access(access@, i as int);
            }
            match access[i].kind {
                AccessKind::Write => {
                    self.written_since_barrier.insert(access[i].buffer);
                },
                AccessKind::Read => {
                    self.read_since_barrier.insert(access[i].buffer);
                },
            }
            proof {
                assert(self.written_since_barrier@ =~= w0.union(writes(access@.take(i + 1))));
                assert(self.read_since_barrier@ =~= r0.union(reads(access@.take(i + 1))));
            }
            i += 1;
        }
        proof {
            assert(access@.take(i as int) =~= access@);
        }
        self.items += 1;
        self.next_seq += 1;
        proof {
            if needs_barrier {
                assert(self.written_since_barrier@ =~= writes(access@));
                assert(self.read_since_barrier@ =~= reads(access@));
            }
            assert(self@ =~= old(self)@.recorded(access@));
        }
        needs_barrier
    }

    /// Whether `access` has a hazard against the items since the last barrier.
    fn conflicts_with(&self, access: &[Access]) -> (r: bool)
        ensures
            r == self@.conflicts(access@),
    {
        let mut i: usize = 0;
        while i < access.len()
            invariant
                i <= access.len(),
                forall|j: int|
                    0 <= j < i ==> !(self@.written.contains((#[trigger] access@[j]).buffer) || (
                    access@[j].kind is Write && self@.read.contains(access@[j].buffer))),
            decreases access.len() - i,
        {
            let a: Access = access[i];
            if self.written_since_barrier.contains(&a.buffer) || (a.kind == AccessKind::Write
                && self.read_since_barrier.contains(&a.buffer)) {
                proof {
                    assert(access@[i as int] == a);
                }
                return true;
            }
            i += 1;
        }
        false
    }

    /// Record a transfer whose copy writes `buffer`, and say whether a barrier
    /// must precede it. It is not an item of the plan.
    pub fn record_transfer_write(&mut self, buffer: u64) -> (r: bool)
        requires
            old(self)@.wf(),
        ensures
            final(self)@ == old(self)@.transferred(buffer),
            final(self)@.wf(),
            r == old(self)@.transfer_needs_barrier(buffer),
    {
        let hazard: bool = match self.barrier_rule {
            BarrierRule::Always => true,
            BarrierRule::Declared => self.written_since_barrier.contains(&buffer)
                || self.read_since_barrier.contains(&buffer),
        };
        let needs_barrier: bool = self.items > 0 && hazard;
        if needs_barrier {
            self.written_since_barrier.clear();
            self.read_since_barrier.clear();
        }
        self.written_since_barrier.insert(buffer);
        proof {
            assert(self@ =~= old(self)@.transferred(buffer));
        }
        needs_barrier
    }

    /// The reason this batch must be flushed now, checked after an item was
    /// recorded.
    pub fn due(&self) -> (r: Option<FlushReason>)
        ensures
            r == self@.due(),
    {
        if self.items >= self.max_items {
            return Some(FlushReason::BatchFull);
        }
        None
    }

    /// Account for objects retired into this batch and say whether the budget
    /// now demands a flush.
    pub fn retire(&mut self, bytes: u64, objects: u64) -> (r: Option<FlushReason>)
        requires
            old(self)@.wf(),
        ensures
            final(self)@ == old(self)@.retired(bytes, objects),
            final(self)@.wf(),
            r == final(self)@.over_budget(),
    {
        self.retired_bytes = self.retired_bytes.saturating_add(bytes);
        self.retired_objects = self.retired_objects.saturating_add(objects);
        proof {
            assert(self@ =~= old(self)@.retired(bytes, objects));
        }
        if self.retired_bytes > self.max_retired_bytes {
            return Some(FlushReason::RetiredBytes);
        }
        None
    }

    pub fn items(&self) -> (r: u32)
        ensures
            r == self@.items,
    {
        self.items
    }

    pub fn barriers(&self) -> (r: u32)
        ensures
            r == self@.barriers,
    {
        self.barriers
    }

    pub fn first_seq(&self) -> (r: u64)
        ensures
            r == self@.first_seq,
    {
        self.first_seq
    }

    /// One past the sequence number of the last recorded item.
    pub fn next_seq(&self) -> (r: u64)
        ensures
            r == self@.next_seq,
    {
        self.next_seq
    }

    pub fn retired_bytes(&self) -> (r: u64)
        ensures
            r == self@.retired_bytes,
    {
        self.retired_bytes
    }

    /// Driver objects retired into this batch.
    pub fn retired_objects(&self) -> (r: u64)
        ensures
            r == self@.retired_objects,
    {
        self.retired_objects
    }

    /// The batch's description, for the message of a failed flush.
    pub fn describe(&self, reason: FlushReason) -> (r: String)
        ensures
            r@ == self@.description(reason),
    {
        let mut s = String::from_str("reason ");
        s.append(flush_reason_name(reason));
        s.append(", ");
        append_decimal(&mut s, self.items as u64);
        s.append(" recorded dispatch(es), ");
        append_decimal(&mut s, self.barriers as u64);
        s.append(" barrier(s), sequence ");
        append_decimal(&mut s, self.first_seq);
        s.append("..");
        append_decimal(&mut s, self.next_seq.saturating_sub(1));
        s.append(", ");
        append_decimal(&mut s, self.retired_objects);
        s.append(" retired object(s) holding ");
        append_decimal(&mut s, self.retired_bytes);
        s.append(" byte(s)");
        s
    }
}

proof fn lemma_take_access(access: Seq<Access>, i: int)
    requires
        0 <= i < access.len(),
    ensures
        access[i].kind is Write ==> writes(access.take(i + 1)) == writes(access.take(i)).insert(
            access[i].buffer,
        ) && reads(access.take(i + 1)) == reads(access.take(i)),
        access[i].kind is Read ==> reads(access.take(i + 1)) == reads(access.take(i)).insert(
            access[i].buffer,
        ) && writes(access.take(i + 1)) == writes(access.take(i)),
{
    let before = access.take(i);
    let after = access.take(i + 1);
    assert(after =~= before.push(access[i]));
    assert forall|b: u64| #[trigger] writes(after).contains(b) == (writes(before).contains(b) || (
    access[i].kind is Write && access[i].buffer == b)) by {
        let want = Access { buffer: b, kind: AccessKind::Write };
        if writes(before).contains(b) {
            let j = choose|j: int| 0 <= j < before.len() && #[trigger] before[j] == want;
            assert(after[j] == want);
        }
        if access[i] == want {
            assert(after[i] == want);
        }
        if writes(after).contains(b) {
            let j = choose|j: int| 0 <= j < after.len() && #[trigger] after[j] == want;
            if j < i {
                assert(before[j] == want);
            }
        }
    }
    assert forall|b: u64| #[trigger] reads(after).contains(b) == (reads(before).contains(b) || (
    access[i].kind is Read && access[i].buffer == b)) by {
        let want = Access { buffer: b, kind: AccessKind::Read };
        if reads(before).contains(b) {
            let j = choose|j: int| 0 <= j < before.len() && #[trigger] before[j] == want;
            assert(after[j] == want);
        }
        if access[i] == want {
            assert(after[i] == want);
        }
        if reads(after).contains(b) {
            let j = choose|j: int| 0 <= j < after.len() && #[trigger] after[j] == want;
            if j < i {
                assert(before[j] == want);
            }
        }
    }
    if access[i].kind is Write {
        assert(writes(after) =~= writes(before).insert(access[i].buffer));
        assert(reads(after) =~= reads(before));
    } else {
        assert(reads(after) =~= reads(before).insert(access[i].buffer));
        assert(writes(after) =~= writes(before));
    }
}

/// The first slot in which a declaration and a binding disagree.
pub open spec fn first_mismatch(declared: Seq<Access>, bound: Seq<u64>, from: int) -> Option<int>
    decreases declared.len() - from,
{
    if from >= declared.len() {
        None
    } else if declared[from].buffer != bound[from] {
        Some(from)
    } else {
        first_mismatch(declared, bound, from + 1)
    }
}

/// What is wrong with a declaration, in words, where something is.
pub open spec fn access_refusal(declared: Seq<Access>, bound: Seq<u64>) -> Option<Seq<char>> {
    if declared.len() != bound.len() {
        Some(
            "dispatch declares "@ + decimal_text(declared.len())
                + " buffer access(es), the kernel is bound to "@ + decimal_text(bound.len())
                + " buffer(s)"@,
        )
    } else {
        match first_mismatch(declared, bound, 0) {
            None => None,
            Some(slot) => Some(
                "dispatch declares buffer "@ + decimal_text(declared[slot].buffer as nat)
                    + " in slot "@ + decimal_text(slot as nat)
                    + ", the kernel is bound to buffer "@ + decimal_text(bound[slot] as nat)
                    + " there"@,
            ),
        }
    }
}

/// The declared access set must name the kernel's bound buffers, slot for slot.
pub fn check_declared_access(declared: &[Access], bound: &[u64]) -> (r: Result<(), String>)
    ensures
        match access_refusal(declared@, bound@) {
            None => r is Ok,
            Some(text) => r is Err && r->Err_0@ == text,
        },
{
    if declared.len() != bound.len() {
        let mut s = String::from_str("dispatch declares ");
        append_decimal(&mut s, declared.len() as u64);
        s.append(" buffer access(es), the kernel is bound to ");
        append_decimal(&mut s, bound.len() as u64);
        s.append(" buffer(s)");
        return Err(s);
    }
    let mut slot: usize = 0;
    while slot < declared.len()
        invariant
            slot <= declared.len(),
            declared.len() == bound.len(),
            first_mismatch(declared@, bound@, 0) == first_mismatch(declared@, bound@, slot as int),
        decreases declared.len() - slot,
    {
        if declared[slot].buffer != bound[slot] {
            let mut s = String::from_str("dispatch declares buffer ");
            append_decimal(&mut s, declared[slot].buffer);
            s.append(" in slot ");
            append_decimal(&mut s, slot as u64);
            s.append(", the kernel is bound to buffer ");
            append_decimal(&mut s, bound[slot]);
            s.append(" there");
            return Err(s);
        }
        slot += 1;
    }
    Ok(())
}

/// A declaration is accepted exactly where it names the bound buffers in order;
/// whether a slot is read or written plays no part.
pub proof fn law_declaration_names_the_binding(declared: Seq<Access>, bound: Seq<u64>)
    ensures
        access_refusal(declared, bound) is None <==> (declared.len() == bound.len() && forall|i: int|
            0 <= i < declared.len() ==> (#[trigger] declared[i]).buffer == bound[i]),
{
    if declared.len() == bound.len() {
        lemma_first_mismatch(declared, bound, 0);
    }
}

proof fn lemma_first_mismatch(declared: Seq<Access>, bound: Seq<u64>, from: int)
    requires
        declared.len() == bound.len(),
        0 <= from,
    ensures
        first_mismatch(declared, bound, from) is None <==> forall|i: int|
            from <= i < declared.len() ==> (#[trigger] declared[i]).buffer == bound[i],
    decreases declared.len() - from,
{
    if from < declared.len() {
        lemma_first_mismatch(declared, bound, from + 1);
        if declared[from].buffer != bound[from] {
            assert(!(declared[from].buffer == bound[from]));
        }
    }
}

/// The next descriptor set index a kernel hands out, or `None` when all of its
/// sets are held by recorded, unsubmitted work.
pub fn next_set_index(watermark: u32, capacity: u32) -> (r: Option<u32>)
    ensures
        r == (if watermark < capacity {
            Some(watermark)
        } else {
            None
        }),
{
    if watermark >= capacity {
        return None;
    }
    Some(watermark)
}

/// A tuning from the text of its variable: the default where the text is
/// absent, is no number, or is a number of zero or out of range.
pub fn env_u32(value: Option<&str>, default: u32) -> (r: u32)
    ensures
        r == (match budget(
            match value {
                Some(s) => Some(s@),
                None => None,
            },
            u32::MAX as nat,
        ) {
            Some(n) => n,
            None => default as nat,
        }),
{
    match read_budget(value, u32::MAX as u64) {
        Some(n) => n as u32,
        None => default,
    }
}

/// As `env_u32`, for a wider tuning.
pub fn env_u64(value: Option<&str>, default: u64) -> (r: u64)
    ensures
        r == (match budget(
            match value {
                Some(s) => Some(s@),
                None => None,
            },
            u64::MAX as nat,
        ) {
            Some(n) => n,
            None => default as nat,
        }),
{
    match read_budget(value, u64::MAX) {
        Some(n) => n,
        None => default,
    }
}

/// What an on/off text says: off for the four words for it, the default for an
/// empty one, on for anything else.
pub open spec fn flag_of(text: Option<Seq<char>>, default: bool) -> bool {
    match text {
        None => default,
        Some(s) => {
            let t = trimmed(s);
            if t == "0"@ || t == "false"@ || t == "off"@ || t == "no"@ {
                false
            } else if t.len() == 0 {
                default
            } else {
                true
            }
        },
    }
}

/// An on/off tuning from the text of its variable.
pub fn env_flag(value: Option<&str>, default: bool) -> (r: bool)
    ensures
        r == flag_of(
            match value {
                Some(s) => Some(s@),
                None => None,
            },
            default,
        ),
{
    match value {
        None => default,
        Some(v) => {
            let t: &str = crate::text::trim(v);
            if str_eq(t, "0") || str_eq(t, "false") || str_eq(t, "off") || str_eq(t, "no") {
                false
            } else if t.is_empty() {
                default
            } else {
                true
            }
        },
    }
}

/// The reasons are numbered in the order in which they are declared, and each is
/// called by its own name.
pub proof fn law_reasons_are_numbered_and_named()
    ensures
        FlushReason::Readback.place() == 0 && FlushReason::Readback.text() == "Readback"@,
        FlushReason::Upload.place() == 1 && FlushReason::Upload.text() == "Upload"@,
        FlushReason::TimedDispatch.place() == 2 && FlushReason::TimedDispatch.text()
            == "TimedDispatch"@,
        FlushReason::Close.place() == 3 && FlushReason::Close.text() == "Close"@,
        FlushReason::ExplicitSync.place() == 4 && FlushReason::ExplicitSync.text()
            == "ExplicitSync"@,
        FlushReason::BatchFull.place() == 5 && FlushReason::BatchFull.text() == "BatchFull"@,
        FlushReason::DescriptorsExhausted.place() == 6 && FlushReason::DescriptorsExhausted.text()
            == "DescriptorsExhausted"@,
        FlushReason::RetiredBytes.place() == 7 && FlushReason::RetiredBytes.text()
            == "RetiredBytes"@,
        FlushReason::Accounting.place() == 8 && FlushReason::Accounting.text() == "Accounting"@,
{
}

/// A batch takes 128 items, the first after a completing flush 16; a kernel has
/// 512 descriptor sets for it, and 2^30 bytes may be retired into it.
pub proof fn law_default_budgets()
    ensures
        MAX_RECORDED_ITEMS == 128,
        RAMP_FIRST == 16,
        SETS_PER_KERNEL_POOL == 512,
        MAX_RETIRED_BYTES == 1024 * 1024 * 1024,
        FLUSH_REASON_COUNT == 9,
{
}

/// Every barrier is asked for only by the text that says so.
pub proof fn law_barrier_rule_is_declared_unless_asked(value: Option<&str>)
    ensures
        BarrierRule::asked(value) is Always <==> value is Some && value->0@ == "always"@,
{
}

/// A declaration writes the buffers it declares written and reads those it
/// declares read, and no others.
pub proof fn law_declared_buffers(access: Seq<Access>, b: u64)
    ensures
        writes(access).contains(b) <==> exists|i: int|
            0 <= i < access.len() && (#[trigger] access[i]).buffer == b && access[i].kind is Write,
        reads(access).contains(b) <==> exists|i: int|
            0 <= i < access.len() && (#[trigger] access[i]).buffer == b && access[i].kind is Read,
{
    if writes(access).contains(b) {
        let i = choose|i: int|
            0 <= i < access.len() && #[trigger] access[i] == (Access {
                buffer: b,
                kind: AccessKind::Write,
            });
        assert(access[i].buffer == b && access[i].kind is Write);
    }
    if reads(access).contains(b) {
        let i = choose|i: int|
            0 <= i < access.len() && #[trigger] access[i] == (Access {
                buffer: b,
                kind: AccessKind::Read,
            });
        assert(access[i].buffer == b && access[i].kind is Read);
    }
    if exists|i: int|
        0 <= i < access.len() && (#[trigger] access[i]).buffer == b && access[i].kind is Write {
        let i = choose|i: int|
            0 <= i < access.len() && (#[trigger] access[i]).buffer == b && access[i].kind is Write;
        assert(access[i] == (Access { buffer: b, kind: AccessKind::Write }));
    }
    if exists|i: int|
        0 <= i < access.len() && (#[trigger] access[i]).buffer == b && access[i].kind is Read {
        let i = choose|i: int|
            0 <= i < access.len() && (#[trigger] access[i]).buffer == b && access[i].kind is Read;
        assert(access[i] == (Access { buffer: b, kind: AccessKind::Read }));
    }
}

/// Where only conflicts ask for a barrier, an item that declares its buffers has
/// one before it exactly where it touches one written since the last barrier, or
/// writes one read since; an item without a declaration always has one. The
/// first item of a batch has none.
pub proof fn law_barriers_come_only_for_conflicts(m: BatchModel, access: Seq<Access>)
    ensures
        m.items == 0 ==> !m.needs_barrier(access),
        m.items > 0 && m.rule is Always ==> m.needs_barrier(access),
        m.items > 0 && access.len() == 0 ==> m.needs_barrier(access),
        m.items > 0 && m.rule is Declared && access.len() > 0 ==> (!m.needs_barrier(access) <==> (
        m.written.disjoint(writes(access)) && m.written.disjoint(reads(access)) && m.read.disjoint(
            writes(access),
        ))),
{
    assert forall|i: int| 0 <= i < access.len() implies if (#[trigger] access[i]).kind is Write {
        writes(access).contains(access[i].buffer)
    } else {
        reads(access).contains(access[i].buffer)
    } by {
        law_declared_buffers(access, access[i].buffer);
    }
    if !m.conflicts(access) {
        assert forall|b: u64| writes(access).contains(b) implies !m.written.contains(b)
            && !m.read.contains(b) by {
            let i = choose|i: int|
                0 <= i < access.len() && #[trigger] access[i] == (Access {
                    buffer: b,
                    kind: AccessKind::Write,
                });
            assert(access[i].buffer == b);
        }
        assert forall|b: u64| reads(access).contains(b) implies !m.written.contains(b) by {
            let i = choose|i: int|
                0 <= i < access.len() && #[trigger] access[i] == (Access {
                    buffer: b,
                    kind: AccessKind::Read,
                });
            assert(access[i].buffer == b);
        }
    }
}

/// A recorded item is counted, takes the next sequence number, counts a barrier
/// where it has one, and adds its buffers to those touched since the last
/// barrier: with a barrier, to none.
pub proof fn law_recorded_item_is_counted(m: BatchModel, access: Seq<Access>, b: u64)
    requires
        m.items < u32::MAX,
        m.barriers < u32::MAX,
        m.next_seq < u64::MAX,
    ensures
        m.recorded(access).items == m.items + 1,
        m.recorded(access).next_seq == m.next_seq + 1,
        m.recorded(access).first_seq == m.first_seq,
        m.recorded(access).barriers == m.barriers + (if m.needs_barrier(access) {
            1int
        } else {
            0int
        }),
        m.recorded(access).written.contains(b) <==> writes(access).contains(b)
            || !m.needs_barrier(access) && m.written.contains(b),
        m.recorded(access).read.contains(b) <==> reads(access).contains(b) || !m.needs_barrier(
            access,
        ) && m.read.contains(b),
        m.recorded(access).rule == m.rule,
        m.recorded(access).max_items == m.max_items,
        m.recorded(access).max_retired_bytes == m.max_retired_bytes,
        m.recorded(access).retired_bytes == m.retired_bytes,
        m.recorded(access).retired_objects == m.retired_objects,
{
}

/// A transfer into a buffer has a barrier before it exactly where the buffer was
/// touched since the last one, or every item has one; it counts as no item.
pub proof fn law_transfer_waits_for_its_buffer(m: BatchModel, buffer: u64, b: u64)
    ensures
        m.transfer_needs_barrier(buffer) <==> m.items > 0 && (m.rule is Always
            || m.written.contains(buffer) || m.read.contains(buffer)),
        m.transferred(buffer).written.contains(b) <==> b == buffer || !m.transfer_needs_barrier(
            buffer,
        ) && m.written.contains(b),
        m.transferred(buffer).read.contains(b) <==> !m.transfer_needs_barrier(buffer)
            && m.read.contains(b),
        m.transferred(buffer) == (BatchModel {
            written: m.transferred(buffer).written,
            read: m.transferred(buffer).read,
            ..m
        }),
{
}

/// A batch is full with its budget of items, and over its budget of memory with
/// one byte more than it; what is retired adds up.
pub proof fn law_budgets_are_reached(m: BatchModel, bytes: u64, objects: u64)
    ensures
        m.items >= m.max_items ==> m.due() == Some(FlushReason::BatchFull),
        m.items < m.max_items ==> m.due() is None,
        m.retired_bytes > m.max_retired_bytes ==> m.over_budget() == Some(
            FlushReason::RetiredBytes,
        ),
        m.retired_bytes <= m.max_retired_bytes ==> m.over_budget() is None,
        m.retired_bytes + bytes <= u64::MAX ==> m.retired(bytes, objects).retired_bytes
            == m.retired_bytes + bytes,
        m.retired_bytes + bytes > u64::MAX ==> m.retired(bytes, objects).retired_bytes == u64::MAX,
        m.retired_objects + objects <= u64::MAX ==> m.retired(bytes, objects).retired_objects
            == m.retired_objects + objects,
        m.retired_objects + objects > u64::MAX ==> m.retired(bytes, objects).retired_objects
            == u64::MAX,
        m.retired(bytes, objects).items == m.items,
        m.retired(bytes, objects).barriers == m.barriers,
{
}

/// A batch opens empty at its first sequence number, with room for one item at
/// least.
pub proof fn law_batch_opens_empty(
    rule: BarrierRule,
    first_seq: u64,
    max_items: u32,
    max_retired_bytes: u64,
)
    ensures
        ({
            let m = opened(rule, first_seq, max_items, max_retired_bytes);
            &&& m.items == 0 && m.barriers == 0
            &&& m.first_seq == first_seq && m.next_seq == first_seq
            &&& m.retired_bytes == 0 && m.retired_objects == 0
            &&& m.rule == rule
            &&& m.max_retired_bytes == max_retired_bytes
            &&& max_items >= 1 ==> m.max_items == max_items
            &&& max_items == 0 ==> m.max_items == 1
            &&& m.written.is_empty() && m.read.is_empty()
        }),
{
    assert(opened(rule, first_seq, max_items, max_retired_bytes).written =~= Set::empty());
    assert(opened(rule, first_seq, max_items, max_retired_bytes).read =~= Set::empty());
}

/// A batch of items is described by its reason, its counts, and the sequence
/// numbers of its first and last item.
pub proof fn law_description_tells_the_batch(m: BatchModel, reason: FlushReason)
    requires
        m.wf(),
        m.items > 0,
    ensures
        m.description(reason) == "reason "@ + reason.text() + ", "@ + decimal_text(m.items as nat)
            + " recorded dispatch(es), "@ + decimal_text(m.barriers as nat)
            + " barrier(s), sequence "@ + decimal_text(m.first_seq as nat) + ".."@ + decimal_text(
            (m.first_seq + m.items - 1) as nat,
        ) + ", "@ + decimal_text(m.retired_objects as nat) + " retired object(s) holding "@
            + decimal_text(m.retired_bytes as nat) + " byte(s)"@,
{
}

/// A refused declaration is told by the two lengths where they differ, and else
/// by the first slot in which it names another buffer than the one bound there.
pub proof fn law_refused_declaration_says_where(
    declared: Seq<Access>,
    bound: Seq<u64>,
    slot: int,
)
    ensures
        declared.len() != bound.len() ==> access_refusal(declared, bound) == Some(
            "dispatch declares "@ + decimal_text(declared.len())
                + " buffer access(es), the kernel is bound to "@ + decimal_text(bound.len())
                + " buffer(s)"@,
        ),
        declared.len() == bound.len() && 0 <= slot < declared.len() && declared[slot].buffer
            != bound[slot] && (forall|i: int|
            0 <= i < slot ==> (#[trigger] declared[i]).buffer == bound[i]) ==> access_refusal(
            declared,
            bound,
        ) == Some(
            "dispatch declares buffer "@ + decimal_text(declared[slot].buffer as nat)
                + " in slot "@ + decimal_text(slot as nat) + ", the kernel is bound to buffer "@
                + decimal_text(bound[slot] as nat) + " there"@,
        ),
{
    if declared.len() == bound.len() && 0 <= slot < declared.len() && declared[slot].buffer
        != bound[slot] && (forall|i: int|
        0 <= i < slot ==> (#[trigger] declared[i]).buffer == bound[i]) {
        lemma_mismatch_found(declared, bound, 0, slot);
    }
}

proof fn lemma_mismatch_found(declared: Seq<Access>, bound: Seq<u64>, from: int, slot: int)
    requires
        0 <= from <= slot < declared.len(),
        declared[slot].buffer != bound[slot],
        forall|i: int| 0 <= i < slot ==> (#[trigger] declared[i]).buffer == bound[i],
    ensures
        first_mismatch(declared, bound, from) == Some(slot),
    decreases slot - from,
{
    if from < slot {
        assert(declared[from].buffer == bound[from]);
        lemma_mismatch_found(declared, bound, from + 1, slot);
    }
}

/// A flag is off for the four words that say so, the default where nothing is
/// said, and on for any other text; white space around it plays no part.
pub proof fn law_flags_are_off_by_four_words(s: Seq<char>, default: bool)
    ensures
        flag_of(None, default) == default,
        trimmed(s) == "0"@ || trimmed(s) == "false"@ || trimmed(s) == "off"@ || trimmed(s)
            == "no"@ ==> !flag_of(Some(s), default),
        trimmed(s).len() == 0 ==> flag_of(Some(s), default) == default,
        trimmed(s).len() > 0 && trimmed(s) != "0"@ && trimmed(s) != "false"@ && trimmed(s)
            != "off"@ && trimmed(s) != "no"@ ==> flag_of(Some(s), default),
{
    reveal_strlit("0");
    reveal_strlit("false");
    reveal_strlit("off");
    reveal_strlit("no");
}

} // verus!
