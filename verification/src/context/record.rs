//! Recording: the batch that is opened for the first command, and the commands
//! of a dispatch.

use super::flush::{Flush, FlushModel, FlushNext, FlushOutcome};
use super::{
    BarrierMode, Context, ContextModel, DescriptorMode, DispatchCounts, Recorder, RecorderModel,
};
use crate::batch::{
    access_refusal, check_declared_access, opened, Access, AccessKind, BatchPlan, FlushReason,
    RAMP_FIRST,
};
use crate::driver::{Call, Reply};
use crate::error::{AckError, Failure};
use crate::kernel::{Kernel, KernelModel};
use crate::ledger::{launches, Ledger, Order};
use crate::one_shot::{launch_orders, push_orders, record_launch};
use crate::text::{append_decimal, decimal_text};
use vstd::arithmetic::power2::{lemma2_to64, lemma_pow2_strictly_increases, pow2};
use vstd::prelude::*;
use vstd::string::*;

verus! {

/// A batch being opened.
#[derive(Clone, Copy, Debug, PartialEq, Eq, Structural)]
pub enum OpenBatch {
    /// The timestamp instrument's queries come first.
    Queries { count: u32 },
    Commands,
    Fence { commands: u64 },
    Begin { commands: u64, fence: u64 },
}

/// Where the opening of a batch stands.
#[derive(Debug)]
pub enum OpenNext {
    Pending(OpenBatch),
    Opened,
    Refused(AckError),
}

pub ghost enum OpenOutcome {
    Pending(OpenBatch),
    Opened,
    Refused(Failure),
}

impl View for OpenNext {
    type V = OpenOutcome;

    open spec fn view(&self) -> OpenOutcome {
        match self {
            OpenNext::Pending(o) => OpenOutcome::Pending(*o),
            OpenNext::Opened => OpenOutcome::Opened,
            OpenNext::Refused(e) => OpenOutcome::Refused(e@),
        }
    }
}

impl OpenBatch {
    pub open spec fn next_call(self) -> Call {
        match self {
            OpenBatch::Queries { count } => Call::CreateQueryPool { count },
            OpenBatch::Commands => Call::AllocateCommandBuffer,
            OpenBatch::Fence { .. } => Call::CreateFence,
            OpenBatch::Begin { commands, .. } => Call::Begin { commands },
        }
    }

    /// No batch is open yet, and its bank is decided.
    pub open spec fn held_by(self, m: ContextModel) -> bool {
        &&& m.recorder is None
        &&& m.ledger.usable()
        &&& m.bank == m.open_bank()
        &&& m.tuning.timestamps ==> self is Queries || m.queries is Some
    }

    /// The call to make next.
    pub fn call(&self) -> (r: Call)
        ensures
            r == self.next_call(),
    {
        match *self {
            OpenBatch::Queries { count } => Call::CreateQueryPool { count },
            OpenBatch::Commands => Call::AllocateCommandBuffer,
            OpenBatch::Fence { .. } => Call::CreateFence,
            OpenBatch::Begin { commands, .. } => Call::Begin { commands },
        }
    }
}

impl RecorderModel {
    /// Whether a barrier is due before an item: its declared accesses conflict
    /// with the commands since the last one, or a copy comes right before it.
    pub open spec fn item_barrier(self, access: Seq<Access>) -> bool {
        self.plan.needs_barrier(access) || self.pending_transfer
    }

    /// Whether a barrier is due before a copy into a buffer.
    pub open spec fn copy_barrier(self, buffer: u64) -> bool {
        self.plan.transfer_needs_barrier(buffer) || self.pending_transfer
    }

    /// The batch with an item recorded.
    pub open spec fn with_item(self, access: Seq<Access>) -> RecorderModel {
        RecorderModel { plan: self.plan.recorded(access), pending_transfer: false, ..self }
    }

    /// The batch with a copy into a buffer recorded.
    pub open spec fn with_copy(self, buffer: u64) -> RecorderModel {
        RecorderModel { plan: self.plan.transferred(buffer), pending_transfer: true, ..self }
    }
}

/// A command of a batch: an item that declares what it touches, or a copy into
/// a buffer.
pub ghost enum Command {
    Item(Seq<Access>),
    Copy(u64),
}

impl Command {
    pub open spec fn writes(self, buffer: u64) -> bool {
        match self {
            Command::Item(access) => crate::batch::writes(access).contains(buffer),
            Command::Copy(target) => target == buffer,
        }
    }

    pub open spec fn reads(self, buffer: u64) -> bool {
        match self {
            Command::Item(access) => crate::batch::reads(access).contains(buffer),
            Command::Copy(_) => false,
        }
    }

    pub open spec fn recorded_into(self, r: RecorderModel) -> RecorderModel {
        match self {
            Command::Item(access) => r.with_item(access),
            Command::Copy(buffer) => r.with_copy(buffer),
        }
    }

    pub open spec fn barrier_in(self, r: RecorderModel) -> bool {
        match self {
            Command::Item(access) => r.item_barrier(access),
            Command::Copy(buffer) => r.copy_barrier(buffer),
        }
    }
}

/// Two commands touch a buffer that one of them writes.
pub open spec fn conflict(a: Command, b: Command, buffer: u64) -> bool {
    (a.writes(buffer) && (b.writes(buffer) || b.reads(buffer))) || (a.reads(buffer) && b.writes(
        buffer,
    ))
}

/// A batch after a row of commands.
pub open spec fn after_commands(r: RecorderModel, row: Seq<Command>) -> RecorderModel
    decreases row.len(),
{
    if row.len() == 0 {
        r
    } else {
        row.last().recorded_into(after_commands(r, row.drop_last()))
    }
}

/// Whether a barrier is due before the command at `k`.
pub open spec fn barrier_at(r: RecorderModel, row: Seq<Command>, k: int) -> bool {
    row[k].barrier_in(after_commands(r, row.take(k)))
}

/// Any two commands of a batch that conflict have a barrier due between them: one
/// before the later of the two, or before a command between them.
pub proof fn law_conflicting_commands_are_separated(
    r: RecorderModel,
    row: Seq<Command>,
    i: int,
    j: int,
    buffer: u64,
)
    requires
        0 <= i < j < row.len(),
        r.plan.items + row.len() <= u32::MAX,
        conflict(row[i], row[j], buffer),
    ensures
        exists|k: int| i < k <= j && #[trigger] barrier_at(r, row, k),
{
    if row[i] is Copy {
        lemma_after_take(r, row, i + 1);
        assert(barrier_at(r, row, i + 1));
    } else if !exists|k: int| i < k < j && #[trigger] barrier_at(r, row, k) {
        lemma_unseparated(r, row, i, j);
        let state = after_commands(r, row.take(j));
        match (row[i], row[j]) {
            (Command::Item(first), Command::Item(second)) => {
                let want_w = Access { buffer, kind: AccessKind::Write };
                let want_r = Access { buffer, kind: AccessKind::Read };
                if row[j].writes(buffer) {
                    let n = choose|n: int| 0 <= n < second.len() && #[trigger] second[n] == want_w;
                    assert(second[n].buffer == buffer);
                    assert(state.plan.conflicts(second));
                } else {
                    let n = choose|n: int| 0 <= n < second.len() && #[trigger] second[n] == want_r;
                    assert(second[n].buffer == buffer);
                    assert(state.plan.conflicts(second));
                }
            },
            _ => {},
        }
        assert(barrier_at(r, row, j));
    }
}

proof fn lemma_after_take(r: RecorderModel, row: Seq<Command>, n: int)
    requires
        0 < n <= row.len(),
    ensures
        after_commands(r, row.take(n)) == row[n - 1].recorded_into(
            after_commands(r, row.take(n - 1)),
        ),
{
    assert(row.take(n).drop_last() =~= row.take(n - 1));
    assert(row.take(n).last() == row[n - 1]);
}

/// While no barrier follows an item, what it touched is remembered.
proof fn lemma_unseparated(r: RecorderModel, row: Seq<Command>, i: int, n: int)
    requires
        0 <= i < n <= row.len(),
        row[i] is Item,
        r.plan.items + row.len() <= u32::MAX,
        forall|k: int| i < k < n ==> !#[trigger] barrier_at(r, row, k),
    ensures
        after_commands(r, row.take(n)).plan.items > 0,
        forall|b: u64|
            row[i].writes(b) ==> #[trigger] after_commands(
                r,
                row.take(n),
            ).plan.written.contains(b),
        forall|b: u64|
            row[i].reads(b) ==> #[trigger] after_commands(r, row.take(n)).plan.read.contains(b),
    decreases n,
{
    lemma_after_take(r, row, n);
    lemma_items(r, row, n - 1);
    if n == i + 1 {
    } else {
        lemma_unseparated(r, row, i, n - 1);
        assert(!barrier_at(r, row, n - 1));
    }
}

proof fn lemma_items(r: RecorderModel, row: Seq<Command>, n: int)
    requires
        0 <= n <= row.len(),
        r.plan.items + row.len() <= u32::MAX,
    ensures
        after_commands(r, row.take(n)).plan.items <= r.plan.items + n,
    decreases n,
{
    if n > 0 {
        lemma_after_take(r, row, n);
        lemma_items(r, row, n - 1);
    } else {
        assert(row.take(0) =~= Seq::<Command>::empty());
    }
}

/// What a dispatch records.
#[derive(Debug)]
pub struct Request {
    access: Vec<Access>,
    push: Vec<u8>,
    x: u32,
    y: u32,
    z: u32,
    repeats: u32,
}

#[verifier::ext_equal]
pub ghost struct RequestModel {
    pub access: Seq<Access>,
    /// The push block.
    pub push: Seq<u8>,
    pub x: u32,
    pub y: u32,
    pub z: u32,
    pub repeats: u32,
}

impl View for Request {
    type V = RequestModel;

    closed spec fn view(&self) -> RequestModel {
        RequestModel {
            access: self.access@,
            push: self.push@,
            x: self.x,
            y: self.y,
            z: self.z,
            repeats: self.repeats,
        }
    }
}

/// A dispatch in progress.
#[derive(Debug)]
pub enum Dispatch {
    /// Every set of the kernel is held; the batch that holds them is flushed.
    Exhausted(Flush, Request),
    /// The batch is opened that the item goes into, with the set it takes.
    Opening(OpenBatch, Request, u32),
    /// The item is recorded and its batch is flushed.
    Flushing(Flush),
}

pub ghost enum DispatchModel {
    Exhausted(FlushModel, RequestModel),
    Opening(OpenBatch, RequestModel, u32),
    Flushing(FlushModel),
}

impl View for Dispatch {
    type V = DispatchModel;

    open spec fn view(&self) -> DispatchModel {
        match self {
            Dispatch::Exhausted(f, req) => DispatchModel::Exhausted(f@, req@),
            Dispatch::Opening(o, req, set) => DispatchModel::Opening(*o, req@, *set),
            Dispatch::Flushing(f) => DispatchModel::Flushing(f@),
        }
    }
}

impl DispatchModel {
    pub open spec fn next_call(self) -> Call {
        match self {
            DispatchModel::Exhausted(f, _) => f.next_call(),
            DispatchModel::Opening(o, ..) => o.next_call(),
            DispatchModel::Flushing(f) => f.next_call(),
        }
    }

    pub open spec fn held_by(self, m: ContextModel) -> bool {
        match self {
            DispatchModel::Exhausted(f, _) => f.held_by(m),
            DispatchModel::Opening(o, ..) => o.held_by(m),
            DispatchModel::Flushing(f) => f.held_by(m),
        }
    }
}

impl Dispatch {
    /// The call to make next.
    pub fn call(&self) -> (r: Call)
        ensures
            r == self@.next_call(),
    {
        match self {
            Dispatch::Exhausted(f, _) => f.call(),
            Dispatch::Opening(o, ..) => o.call(),
            Dispatch::Flushing(f) => f.call(),
        }
    }
}

/// Where a dispatch stands.
#[derive(Debug)]
pub enum DispatchNext {
    Pending(Dispatch),
    Recorded,
    Refused(AckError),
}

pub ghost enum DispatchOutcome {
    Pending(DispatchModel),
    Recorded,
    Refused(Failure),
}

impl View for DispatchNext {
    type V = DispatchOutcome;

    open spec fn view(&self) -> DispatchOutcome {
        match self {
            DispatchNext::Pending(d) => DispatchOutcome::Pending(d@),
            DispatchNext::Recorded => DispatchOutcome::Recorded,
            DispatchNext::Refused(e) => DispatchOutcome::Refused(e@),
        }
    }
}

pub open spec fn arena_text(sets: u32) -> Seq<char> {
    "the kernel's descriptor arena of "@ + decimal_text(sets as nat)
        + " set(s) is exhausted after a flush"@
}

fn arena_exhausted(sets: u32) -> (r: AckError)
    ensures
        r@ == Failure::Unsupported(arena_text(sets)),
{
    let mut s = String::from_str("the kernel's descriptor arena of ");
    append_decimal(&mut s, sets as u64);
    s.append(" set(s) is exhausted after a flush");
    AckError::Unsupported(s)
}

/// The commands of an item: its set is written, a barrier separates it from what
/// it conflicts with, the kernel is bound and launched, and its completion is
/// stamped.
pub open spec fn item_row(
    commands: u64,
    k: KernelModel,
    req: RequestModel,
    set: u32,
    barrier: bool,
    stamp: Option<(u64, u32)>,
) -> Seq<Order> {
    k.binding_orders(set) + (if barrier {
        seq![Order::Barrier { commands }]
    } else {
        Seq::empty()
    }) + launch_orders(commands, k.pipeline, k.layout, k.pool, set, req.push) + launches(
        commands,
        req.x,
        req.y,
        req.z,
        req.repeats as nat,
    ) + (match stamp {
        Some((pool, query)) => seq![Order::Stamp { commands, pool, query, top: false }],
        None => Seq::empty(),
    })
}

/// Queue the commands of an item.
fn record_commands(
    ledger: &mut Ledger,
    commands: u64,
    kernel: &Kernel,
    req: &Request,
    set: u32,
    barrier: bool,
    stamp: Option<(u64, u32)>,
)
    ensures
        final(ledger)@ == old(ledger)@.ordered_all(
            item_row(commands, kernel@, req@, set, barrier, stamp),
        ),
{
    let ghost start = ledger@;
    let (pipeline, layout, _, pool) = kernel.objects();
    kernel.write_set(ledger, set);
    if barrier {
        ledger.order(Order::Barrier { commands });
    }
    record_launch(ledger, commands, pipeline, layout, pool, set, req.push.as_slice());
    ledger.launch(commands, req.x, req.y, req.z, req.repeats);
    if let Some((pool, query)) = stamp {
        ledger.order(Order::Stamp { commands, pool, query, top: false });
    }
    proof {
        assert(ledger@.orders =~= start.orders + item_row(
            commands,
            kernel@,
            req@,
            set,
            barrier,
            stamp,
        ));
    }
}

impl ContextModel {
    /// The context and the opening of a batch once it has begun: the bank is
    /// decided, and the instrument's queries are created where there are none.
    pub open spec fn opening(self) -> (ContextModel, OpenOutcome) {
        if self.recorder is Some {
            (self, OpenOutcome::Opened)
        } else {
            let m = ContextModel { bank: self.open_bank(), ..self };
            if self.tuning.timestamps && self.queries is None {
                (
                    m,
                    OpenOutcome::Pending(
                        OpenBatch::Queries {
                            count: self.tuning.max_recorded_items.saturating_add(1),
                        },
                    ),
                )
            } else {
                (m, OpenOutcome::Pending(OpenBatch::Commands))
            }
        }
    }

    /// The commands a batch starts with: the origin stamp of a timed one, or the
    /// barrier against the batch that may still be running.
    pub open spec fn first_orders(self, commands: u64) -> Seq<Order> {
        if self.tuning.timestamps {
            let pool = self.queries->0;
            seq![
                Order::ResetQueries { commands, pool, count: self.query_capacity },
                Order::Stamp { commands, pool, query: 0, top: false },
                Order::OriginBarrier { commands },
            ]
        } else if self.tuning.async_flush && self.tuning.barrier_mode is All {
            seq![Order::Barrier { commands }]
        } else {
            Seq::empty()
        }
    }

    /// The context once a batch is open.
    pub open spec fn installed(self, commands: u64, fence: u64) -> ContextModel {
        ContextModel {
            ledger: self.ledger.ordered_all(self.first_orders(commands)),
            counts: DispatchCounts {
                barriers: if self.tuning.timestamps {
                    self.counts.barriers.wrapping_add(1)
                } else {
                    self.counts.barriers
                },
                ..self.counts
            },
            recorder: Some(
                RecorderModel {
                    commands,
                    fence,
                    plan: opened(
                        self.tuning.barrier_rule,
                        self.next_item_seq,
                        self.batch_depth(),
                        self.tuning.max_retired_bytes,
                    ),
                    retired: Seq::empty(),
                    kernels: Seq::empty(),
                    stamps: if self.tuning.timestamps {
                        1
                    } else {
                        0
                    },
                    overflow: false,
                    staging: Seq::empty(),
                    pending_transfer: false,
                },
            ),
            ..self
        }
    }

    /// The context and the opening of a batch after a reply; a failure frees
    /// what was created and installs nothing.
    #[verifier::opaque]
    pub open spec fn open_after(self, o: OpenBatch, reply: Reply) -> (ContextModel, OpenOutcome) {
        match (o, reply) {
            (OpenBatch::Queries { count }, Reply::Handle(pool)) => (
                ContextModel {
                    ledger: self.ledger.created(),
                    queries: Some(pool),
                    query_capacity: count,
                    ..self
                },
                OpenOutcome::Pending(OpenBatch::Commands),
            ),
            (OpenBatch::Commands, Reply::Handle(commands)) => (
                ContextModel { ledger: self.ledger.created(), ..self },
                OpenOutcome::Pending(OpenBatch::Fence { commands }),
            ),
            (OpenBatch::Fence { commands }, Reply::Handle(fence)) => (
                ContextModel { ledger: self.ledger.created(), ..self },
                OpenOutcome::Pending(OpenBatch::Begin { commands, fence }),
            ),
            (OpenBatch::Begin { commands, fence }, Reply::Done) => (
                self.installed(commands, fence),
                OpenOutcome::Opened,
            ),
            (OpenBatch::Fence { commands }, Reply::Failed(code)) => (
                ContextModel {
                    ledger: self.ledger.destroyed(Order::FreeCommandBuffer(commands)),
                    ..self
                },
                OpenOutcome::Refused(Failure::Vulkan(code)),
            ),
            (OpenBatch::Begin { commands, fence }, Reply::Failed(code)) => (
                ContextModel {
                    ledger: self.ledger.destroyed(Order::DestroyFence(fence)).destroyed(
                        Order::FreeCommandBuffer(commands),
                    ),
                    ..self
                },
                OpenOutcome::Refused(Failure::Vulkan(code)),
            ),
            (_, Reply::Failed(code)) => (self, OpenOutcome::Refused(Failure::Vulkan(code))),
            _ => (self, OpenOutcome::Pending(o)),
        }
    }

    /// The context, the kernel and the set once the next one of the open bank is
    /// taken, or none where the arena is exhausted.
    pub open spec fn acquired(self, k: KernelModel) -> (ContextModel, KernelModel, Option<u32>) {
        let mark = k.watermark(self.batch_gen);
        if self.tuning.descriptor_mode is SingleSet {
            (self, k, Some(0))
        } else if mark < k.arena() {
            (
                ContextModel { bank: self.open_bank(), ..self },
                KernelModel { next_set: (mark + 1) as u32, set_gen: self.batch_gen, ..k },
                Some((self.open_bank() * k.arena() + mark) as u32),
            )
        } else {
            (self, KernelModel { next_set: mark, set_gen: self.batch_gen, ..k }, None)
        }
    }

    /// The open batch stamps its next item.
    pub open spec fn stamps_next(self) -> bool {
        let r = self.recorder->0;
        self.tuning.timestamps && r.stamps > 0 && r.stamps < self.query_capacity
    }

    /// The commands of an item.
    pub open spec fn item_orders(self, k: KernelModel, req: RequestModel, set: u32) -> Seq<Order> {
        let r = self.recorder->0;
        item_row(
            r.commands,
            k,
            req,
            set,
            r.item_barrier(req.access) && self.tuning.barrier_mode is All,
            if self.stamps_next() {
                Some((self.queries->0, r.stamps))
            } else {
                None
            },
        )
    }

    /// The context once an item is recorded into the open batch.
    pub open spec fn with_item(self, k: KernelModel, req: RequestModel, set: u32) -> ContextModel {
        let r = self.recorder->0;
        ContextModel {
            ledger: self.ledger.ordered_all(self.item_orders(k, req, set)),
            counts: DispatchCounts {
                items: self.counts.items.wrapping_add(1),
                commands: self.counts.commands.wrapping_add(req.repeats as u64),
                barriers: self.counts.barriers.wrapping_add(
                    if r.plan.needs_barrier(req.access) && self.tuning.barrier_mode is All {
                        1
                    } else {
                        0
                    },
                ).wrapping_add(req.repeats.saturating_sub(1) as u64),
            },
            recorder: Some(
                RecorderModel {
                    stamps: if self.stamps_next() {
                        (r.stamps + 1) as u32
                    } else {
                        r.stamps
                    },
                    overflow: r.overflow || (self.tuning.timestamps && r.stamps > 0
                        && !self.stamps_next()),
                    ..r.with_item(req.access)
                },
            ),
            next_item_seq: (self.next_item_seq + 1) as u64,
            ..self
        }
    }

    /// The context and a dispatch once its item is recorded: a batch that
    /// reached its budget is flushed.
    #[verifier::opaque]
    pub open spec fn item_placed(self, k: KernelModel, req: RequestModel, set: u32) -> (
        ContextModel,
        DispatchOutcome,
    ) {
        let m = self.with_item(k, req, set);
        match m.recorder->0.plan.due() {
            None => (m, DispatchOutcome::Recorded),
            Some(reason) => match m.flushing(reason).1 {
                FlushOutcome::Pending(f) => (
                    m.flushing(reason).0,
                    DispatchOutcome::Pending(DispatchModel::Flushing(f)),
                ),
                FlushOutcome::Finished => (m.flushing(reason).0, DispatchOutcome::Recorded),
                FlushOutcome::Refused(e) => (m.flushing(reason).0, DispatchOutcome::Refused(e)),
            },
        }
    }

    /// The context and a dispatch once it has its set.
    #[verifier::opaque]
    pub open spec fn set_placed(self, k: KernelModel, req: RequestModel, set: u32) -> (
        ContextModel,
        DispatchOutcome,
    ) {
        let m = self.opening().0;
        match self.opening().1 {
            OpenOutcome::Opened => m.item_placed(k, req, set),
            OpenOutcome::Pending(o) => (
                m,
                DispatchOutcome::Pending(DispatchModel::Opening(o, req, set)),
            ),
            OpenOutcome::Refused(e) => (m, DispatchOutcome::Refused(e)),
        }
    }

    /// The one retry for a set, after the flush that freed the arena.
    #[verifier::opaque]
    pub open spec fn retried(self, k: KernelModel, req: RequestModel) -> (
        ContextModel,
        KernelModel,
        DispatchOutcome,
    ) {
        let (m, k2, set) = self.acquired(k);
        match set {
            Some(set) => (m.set_placed(k2, req, set).0, k2, m.set_placed(k2, req, set).1),
            None => (
                m,
                k2,
                DispatchOutcome::Refused(Failure::Unsupported(arena_text(k.arena()))),
            ),
        }
    }

    /// The context, the kernel and a dispatch once it has begun.
    pub open spec fn dispatching(
        self,
        k: KernelModel,
        push: Seq<u8>,
        groups: Seq<u32>,
        repeats: u32,
        access: Seq<Access>,
    ) -> (ContextModel, KernelModel, DispatchOutcome) {
        let req = RequestModel {
            access,
            push,
            x: groups[0],
            y: groups[1],
            z: groups[2],
            repeats,
        };
        match self.dispatch_refusal(k, push.len(), groups, repeats, "dispatch"@) {
            Some(failure) => (self, k, DispatchOutcome::Refused(failure)),
            None => match access_refusal(access, k.bound) {
                Some(why) => (self, k, DispatchOutcome::Refused(Failure::Unsupported(why))),
                None => {
                    let (m, k2, set) = self.acquired(k);
                    match set {
                        Some(set) => (
                            m.set_placed(k2, req, set).0,
                            k2,
                            m.set_placed(k2, req, set).1,
                        ),
                        None => {
                            let reason = FlushReason::DescriptorsExhausted;
                            let f = m.flushing(reason).0;
                            match m.flushing(reason).1 {
                                FlushOutcome::Pending(g) => (
                                    f,
                                    k2,
                                    DispatchOutcome::Pending(DispatchModel::Exhausted(g, req)),
                                ),
                                FlushOutcome::Finished => f.retried(k2, req),
                                FlushOutcome::Refused(e) => (f, k2, DispatchOutcome::Refused(e)),
                            }
                        },
                    }
                },
            },
        }
    }

    /// The context, the kernel and a dispatch after a reply.
    pub open spec fn dispatch_after(self, k: KernelModel, d: DispatchModel, reply: Reply) -> (
        ContextModel,
        KernelModel,
        DispatchOutcome,
    ) {
        match d {
            DispatchModel::Exhausted(f, req) => {
                let m = self.flush_after(f, reply).0;
                match self.flush_after(f, reply).1 {
                    FlushOutcome::Pending(g) => (
                        m,
                        k,
                        DispatchOutcome::Pending(DispatchModel::Exhausted(g, req)),
                    ),
                    FlushOutcome::Finished => m.retried(k, req),
                    FlushOutcome::Refused(e) => (m, k, DispatchOutcome::Refused(e)),
                }
            },
            DispatchModel::Opening(o, req, set) => {
                let m = self.open_after(o, reply).0;
                match self.open_after(o, reply).1 {
                    OpenOutcome::Pending(p) => (
                        m,
                        k,
                        DispatchOutcome::Pending(DispatchModel::Opening(p, req, set)),
                    ),
                    OpenOutcome::Opened => (
                        m.item_placed(k, req, set).0,
                        k,
                        m.item_placed(k, req, set).1,
                    ),
                    OpenOutcome::Refused(e) => (m, k, DispatchOutcome::Refused(e)),
                }
            },
            DispatchModel::Flushing(f) => {
                let m = self.flush_after(f, reply).0;
                match self.flush_after(f, reply).1 {
                    FlushOutcome::Pending(g) => (
                        m,
                        k,
                        DispatchOutcome::Pending(DispatchModel::Flushing(g)),
                    ),
                    FlushOutcome::Finished => (m, k, DispatchOutcome::Recorded),
                    FlushOutcome::Refused(e) => (m, k, DispatchOutcome::Refused(e)),
                }
            },
        }
    }
}

/// A set handed out lies in the bank of the open batch, which the batch in
/// flight does not use: its sets lie in the other half of the pool.
pub proof fn law_sets_of_two_batches_are_disjoint(m: ContextModel, k: KernelModel)
    requires
        m.wf(),
        k.wf(),
        m.acquired(k).2 is Some,
        m.tuning.descriptor_mode is Arena,
    ensures
        ({
            let bank = m.open_bank();
            let set = m.acquired(k).2->0;
            &&& bank * k.arena() <= set < (bank + 1) * k.arena()
            &&& set < k.sets
            &&& m.in_flight matches Some(s) ==> bank != s.bank
        }),
{
    let bank = m.open_bank();
    let arena = k.arena();
    assert((bank + 1) * arena == bank * arena + arena) by (nonlinear_arith);
    assert(bank == 0 ==> bank * arena == 0) by (nonlinear_arith);
    assert(bank == 1 ==> bank * arena == arena) by (nonlinear_arith);
}

/// A batch opened without the timestamp instrument is ordered against the batch
/// that may still be running: its first command is a barrier.
pub proof fn law_a_batch_waits_for_the_one_before(m: ContextModel, commands: u64, fence: u64)
    requires
        m.tuning.async_flush,
        !m.tuning.timestamps,
        m.tuning.barrier_mode is All,
    ensures
        m.installed(commands, fence).ledger.orders == m.ledger.orders.push(
            Order::Barrier { commands },
        ),
{
    assert(m.installed(commands, fence).ledger.orders =~= m.ledger.orders.push(
        Order::Barrier { commands },
    ));
}

/// A barrier that is due is recorded in front of the launches of its item.
pub proof fn law_a_due_barrier_is_recorded(
    m: ContextModel,
    k: KernelModel,
    req: RequestModel,
    set: u32,
)
    requires
        m.recorder is Some,
        m.recorder->0.item_barrier(req.access),
        m.tuning.barrier_mode is All,
    ensures
        ({
            let at = k.pending.len() as int;
            &&& at < m.item_orders(k, req, set).len()
            &&& m.item_orders(k, req, set)[at] == (Order::Barrier {
                commands: m.recorder->0.commands,
            })
            &&& forall|i: int| 0 <= i < at ==> !(#[trigger] m.item_orders(k, req, set)[i] is Launch)
        }),
{
}

/// The batch after a completing flush is short, each one after it that is left
/// in flight is twice as long, up to the budget; a budget of no more than the
/// first length is never shortened.
pub proof fn law_batches_ramp_up(m: ContextModel)
    requires
        m.tuning.batch_ramp,
        m.tuning.async_flush,
        !m.tuning.timestamps,
    ensures
        m.batch_depth() <= m.tuning.max_recorded_items,
        m.tuning.max_recorded_items <= RAMP_FIRST ==> m.batch_depth()
            == m.tuning.max_recorded_items,
        m.ramp == 0 && m.tuning.max_recorded_items > RAMP_FIRST ==> m.batch_depth() == RAMP_FIRST,
        ({
            let next = ContextModel { ramp: m.ramp.saturating_add(1), ..m }.batch_depth();
            if m.ramp >= 16 || 2 * m.batch_depth() >= m.tuning.max_recorded_items {
                m.ramp < 16 ==> next == m.tuning.max_recorded_items
            } else {
                next == 2 * m.batch_depth()
            }
        }),
{
    let n = if m.ramp < 16 {
        m.ramp as nat
    } else {
        16
    };
    lemma2_to64();
    vstd::arithmetic::power2::lemma_pow2_pos(n);
    vstd::arithmetic::power2::lemma_pow2_unfold(n + 1);
    if n < 16 {
        lemma_pow2_strictly_increases(n, 16);
    }
}

impl Context {
    /// The barriers that are due are recorded.
    pub(super) fn barriers_enabled(&self) -> (r: bool)
        ensures
            r == (self@.tuning.barrier_mode is All),
    {
        self.tuning.barrier_mode == BarrierMode::All
    }

    /// Items the batch about to open may record.
    fn batch_depth(&self) -> (r: u32)
        ensures
            r == self@.batch_depth(),
    {
        let depth: u32 = self.tuning.max_recorded_items;
        if !self.tuning.batch_ramp || !self.tuning.async_flush || self.tuning.timestamps {
            return depth;
        }
        let shift: u32 = if self.ramp < 16 {
            self.ramp
        } else {
            16
        };
        let mut ramped: u32 = RAMP_FIRST;
        let mut i: u32 = 0;
        proof {
            lemma2_to64();
        }
        while i < shift
            invariant
                i <= shift <= 16,
                ramped == RAMP_FIRST * pow2(i as nat),
            decreases shift - i,
        {
            proof {
                lemma2_to64();
                vstd::arithmetic::power2::lemma_pow2_unfold((i + 1) as nat);
                if i < 15 {
                    lemma_pow2_strictly_increases((i + 1) as nat, 16);
                }
            }
            ramped = ramped * 2;
            i += 1;
        }
        if depth <= ramped {
            depth
        } else {
            ramped
        }
    }

    /// The descriptor bank of the open batch, or of the batch about to open.
    fn open_bank(&mut self) -> (r: u32)
        requires
            old(self).wf(),
        ensures
            final(self)@.same_buffers(old(self)@),
            final(self).wf(),
            r == old(self)@.open_bank(),
            final(self)@ == (ContextModel { bank: old(self)@.open_bank(), ..old(self)@ }),
    {
        if self.recorder.is_some() {
            return self.bank;
        }
        let bank: u32 = match &self.in_flight {
            Some(s) => 1 - s.bank,
            None => 0,
        };
        self.bank = bank;
        bank
    }

    /// Begin to open a batch, where none is open.
    pub(super) fn open_batch(&mut self) -> (r: OpenNext)
        requires
            old(self).wf(),
            old(self)@.ledger.usable(),
        ensures
            final(self)@.same_buffers(old(self)@),
            final(self).wf(),
            (final(self)@, r@) == old(self)@.opening(),
            r matches OpenNext::Pending(o) ==> o.held_by(final(self)@),
            r is Opened ==> final(self)@.recorder is Some,
    {
        if self.recorder.is_some() {
            return OpenNext::Opened;
        }
        self.open_bank();
        if self.tuning.timestamps && self.queries.is_none() {
            return OpenNext::Pending(
                OpenBatch::Queries { count: self.tuning.max_recorded_items.saturating_add(1) },
            );
        }
        OpenNext::Pending(OpenBatch::Commands)
    }

    /// Take the reply to the call that opens a batch.
    pub(super) fn advance_open(&mut self, o: OpenBatch, reply: Reply) -> (r: OpenNext)
        requires
            old(self).wf(),
            o.held_by(old(self)@),
            o.next_call().admits(reply),
        ensures
            final(self)@.same_buffers(old(self)@),
            final(self).wf(),
            (final(self)@, r@) == old(self)@.open_after(o, reply),
            r matches OpenNext::Pending(p) ==> p.held_by(final(self)@),
            r is Opened ==> final(self)@.recorder is Some,
            final(self)@.ledger.usable(),
            final(self)@.next_item_seq == old(self)@.next_item_seq,
    {
        reveal(ContextModel::open_after);
        match (o, reply) {
            (OpenBatch::Queries { count }, Reply::Handle(pool)) => {
                self.ledger.create();
                self.queries = Some(pool);
                self.query_capacity = count;
                OpenNext::Pending(OpenBatch::Commands)
            },
            (OpenBatch::Commands, Reply::Handle(commands)) => {
                self.ledger.create();
                OpenNext::Pending(OpenBatch::Fence { commands })
            },
            (OpenBatch::Fence { commands }, Reply::Handle(fence)) => {
                self.ledger.create();
                OpenNext::Pending(OpenBatch::Begin { commands, fence })
            },
            (OpenBatch::Begin { commands, fence }, Reply::Done) => {
                self.install(commands, fence);
                OpenNext::Opened
            },
            (OpenBatch::Fence { commands }, Reply::Failed(code)) => {
                self.ledger.destroy(Order::FreeCommandBuffer(commands));
                OpenNext::Refused(AckError::Vulkan(code))
            },
            (OpenBatch::Begin { commands, fence }, Reply::Failed(code)) => {
                self.ledger.destroy(Order::DestroyFence(fence));
                self.ledger.destroy(Order::FreeCommandBuffer(commands));
                OpenNext::Refused(AckError::Vulkan(code))
            },
            (_, Reply::Failed(code)) => OpenNext::Refused(AckError::Vulkan(code)),
            _ => OpenNext::Pending(o),
        }
    }

    /// Install the batch whose command buffer is recording.
    fn install(&mut self, commands: u64, fence: u64)
        requires
            old(self).wf(),
            (OpenBatch::Begin { commands, fence }).held_by(old(self)@),
        ensures
            final(self)@.same_buffers(old(self)@),
            final(self).wf(),
            final(self)@ == old(self)@.installed(commands, fence),
    {
        let plan = BatchPlan::with_rule(
            self.tuning.barrier_rule,
            self.next_item_seq,
            self.batch_depth(),
            self.tuning.max_retired_bytes,
        );
        let mut stamps: u32 = 0;
        if self.tuning.timestamps {
            if let Some(pool) = self.queries {
                self.ledger.order(
                    Order::ResetQueries { commands, pool, count: self.query_capacity },
                );
                self.ledger.order(Order::Stamp { commands, pool, query: 0, top: false });
                self.ledger.order(Order::OriginBarrier { commands });
            }
            self.counts.barriers = self.counts.barriers.wrapping_add(1);
            stamps = 1;
        } else if self.tuning.async_flush && self.barriers_enabled() {
            self.ledger.order(Order::Barrier { commands });
        }
        self.recorder = Some(
            Recorder {
                commands,
                fence,
                plan,
                retired: Vec::new(),
                kernels: Vec::new(),
                stamps,
                overflow: false,
                staging: Vec::new(),
                pending_transfer: false,
            },
        );
        proof {
            assert(self@.ledger.orders =~= old(self)@.installed(commands, fence).ledger.orders);
            assert(self@ =~= old(self)@.installed(commands, fence));
        }
    }

    /// Take the next descriptor set of a kernel's arena, or `None` when the
    /// arena is exhausted by recorded work.
    pub(super) fn acquire_set(&mut self, kernel: &mut Kernel) -> (r: Option<u32>)
        requires
            old(self).wf(),
            old(kernel)@.wf(),
        ensures
            final(self)@.same_buffers(old(self)@),
            final(kernel)@.same_build(old(kernel)@),
            final(self).wf(),
            final(kernel)@.wf(),
            (final(self)@, final(kernel)@, r) == old(self)@.acquired(old(kernel)@),
    {
        let arena: u32 = kernel.descriptor_sets();
        if self.tuning.descriptor_mode == DescriptorMode::SingleSet {
            return Some(0);
        }
        match kernel.take_set(self.batch_gen) {
            Some(i) => {
                let bank: u32 = self.open_bank();
                proof {
                    assert(bank == 0 ==> bank * arena == 0) by (nonlinear_arith);
                    assert(bank == 1 ==> bank * arena == arena) by (nonlinear_arith);
                }
                Some(bank * arena + i)
            },
            None => None,
        }
    }

    /// Record an item into the open batch.
    fn record_item(&mut self, kernel: &Kernel, req: &Request, set: u32)
        requires
            old(self).wf(),
            old(self)@.recorder is Some,
            old(self)@.ledger.usable(),
            old(self)@.next_item_seq < u64::MAX,
        ensures
            final(self)@.same_buffers(old(self)@),
            final(self)@.loose(),
            final(self).pool.wf(),
            final(self)@ == old(self)@.with_item(kernel@, req@, set),
            final(self)@.ledger.usable(),
    {
        let barriers: bool = self.barriers_enabled();
        let timestamps: bool = self.tuning.timestamps;
        let capacity: u32 = self.query_capacity;
        let queries: Option<u64> = self.queries;
        match self.recorder.take() {
            Some(mut rec) => {
                let commands: u64 = rec.commands;
                let pending: bool = rec.pending_transfer;
                let r1: bool = rec.plan.record_with(req.access.as_slice());
                rec.pending_transfer = false;
                let mut stamp: Option<(u64, u32)> = None;
                if timestamps && rec.stamps > 0 {
                    if rec.stamps < capacity {
                        if let Some(pool) = queries {
                            stamp = Some((pool, rec.stamps));
                        }
                        rec.stamps = rec.stamps + 1;
                    } else {
                        rec.overflow = true;
                    }
                }
                record_commands(
                    &mut self.ledger,
                    commands,
                    kernel,
                    req,
                    set,
                    (r1 || pending) && barriers,
                    stamp,
                );
                self.counts.items = self.counts.items.wrapping_add(1);
                self.counts.commands = self.counts.commands.wrapping_add(req.repeats as u64);
                self.counts.barriers = self.counts.barriers.wrapping_add(
                    if r1 && barriers {
                        1
                    } else {
                        0
                    },
                ).wrapping_add(req.repeats.saturating_sub(1) as u64);
                self.next_item_seq = self.next_item_seq + 1;
                self.recorder = Some(rec);
                proof {
                    assert(self@ =~= old(self)@.with_item(kernel@, req@, set));
                }
            },
            None => {},
        }
    }

    /// Record the item and flush the batch where it reached its budget.
    fn place_item(&mut self, kernel: &Kernel, req: &Request, set: u32) -> (r: DispatchNext)
        requires
            old(self).wf(),
            old(self)@.recorder is Some,
            old(self)@.ledger.usable(),
            old(self)@.next_item_seq < u64::MAX,
        ensures
            final(self)@.same_buffers(old(self)@),
            final(self).wf(),
            (final(self)@, r@) == old(self)@.item_placed(kernel@, req@, set),
            r matches DispatchNext::Pending(d) ==> d@.held_by(final(self)@),
    {
        reveal(ContextModel::item_placed);
        self.record_item(kernel, req, set);
        let due: Option<FlushReason> = match &self.recorder {
            Some(rec) => rec.plan.due(),
            None => None,
        };
        match due {
            None => DispatchNext::Recorded,
            Some(reason) => match self.take_batch(reason) {
                FlushNext::Pending(f) => DispatchNext::Pending(Dispatch::Flushing(f)),
                FlushNext::Finished => DispatchNext::Recorded,
                FlushNext::Refused(e) => DispatchNext::Refused(e),
            },
        }
    }

    /// Open the batch the item goes into, where none is open, and record it.
    fn place_set(&mut self, kernel: &Kernel, req: Request, set: u32) -> (r: DispatchNext)
        requires
            old(self).wf(),
            old(self)@.ledger.usable(),
            old(self)@.next_item_seq < u64::MAX,
        ensures
            final(self)@.same_buffers(old(self)@),
            final(self).wf(),
            (final(self)@, r@) == old(self)@.set_placed(kernel@, req@, set),
            r matches DispatchNext::Pending(d) ==> d@.held_by(final(self)@),
    {
        reveal(ContextModel::set_placed);
        match self.open_batch() {
            OpenNext::Opened => self.place_item(kernel, &req, set),
            OpenNext::Pending(o) => DispatchNext::Pending(Dispatch::Opening(o, req, set)),
            OpenNext::Refused(e) => DispatchNext::Refused(e),
        }
    }

    /// The one retry for a set, after the flush that freed the arena.
    fn retry_set(&mut self, kernel: &mut Kernel, req: Request) -> (r: DispatchNext)
        requires
            old(self).wf(),
            old(self)@.ledger.usable(),
            old(kernel)@.wf(),
            old(self)@.next_item_seq < u64::MAX,
        ensures
            final(self)@.same_buffers(old(self)@),
            final(kernel)@.same_build(old(kernel)@),
            final(self).wf(),
            final(kernel)@.wf(),
            (final(self)@, final(kernel)@, r@) == old(self)@.retried(old(kernel)@, req@),
            r matches DispatchNext::Pending(d) ==> d@.held_by(final(self)@),
    {
        reveal(ContextModel::retried);
        match self.acquire_set(kernel) {
            Some(set) => self.place_set(kernel, req, set),
            None => DispatchNext::Refused(arena_exhausted(kernel.descriptor_sets())),
        }
    }

    /// Record `repeats` back-to-back launches of `kernel` into the batch, each
    /// separated from the one before. Returns when the dispatch is recorded,
    /// not when it has run. `access` declares, slot for slot, which buffers it
    /// reads and writes.
    pub fn dispatch(
        &mut self,
        kernel: &mut Kernel,
        push: &[u8],
        groups: [u32; 3],
        repeats: u32,
        access: &[Access],
    ) -> (r: DispatchNext)
        requires
            old(self).wf(),
            old(kernel)@.wf(),
            old(self)@.next_item_seq < u64::MAX,
        ensures
            final(self)@.same_buffers(old(self)@),
            final(kernel)@.same_build(old(kernel)@),
            final(self).wf(),
            final(kernel)@.wf(),
            (final(self)@, final(kernel)@, r@) == old(self)@.dispatching(
                old(kernel)@,
                push@,
                groups@,
                repeats,
                access@,
            ),
            r matches DispatchNext::Pending(d) ==> d@.held_by(final(self)@),
    {
        match self.check_dispatch(kernel, push.len(), &groups, repeats, "dispatch") {
            Ok(()) => {},
            Err(e) => {
                return DispatchNext::Refused(e);
            },
        }
        match check_declared_access(access, kernel.bound().as_slice()) {
            Ok(()) => {},
            Err(why) => {
                return DispatchNext::Refused(AckError::Unsupported(why));
            },
        }
        let mut declared: Vec<Access> = Vec::new();
        declared.extend_from_slice(access);
        let mut block: Vec<u8> = Vec::new();
        block.extend_from_slice(push);
        proof {
            assert(declared@ =~= access@);
            assert(block@ =~= push@);
        }
        let req = Request {
            access: declared,
            push: block,
            x: groups[0],
            y: groups[1],
            z: groups[2],
            repeats,
        };
        match self.acquire_set(kernel) {
            Some(set) => self.place_set(kernel, req, set),
            None => match self.flush(FlushReason::DescriptorsExhausted) {
                FlushNext::Pending(f) => DispatchNext::Pending(Dispatch::Exhausted(f, req)),
                FlushNext::Finished => self.retry_set(kernel, req),
                FlushNext::Refused(e) => DispatchNext::Refused(e),
            },
        }
    }

    /// Take the reply to a dispatch's call.
    pub fn advance_dispatch(&mut self, kernel: &mut Kernel, d: Dispatch, reply: Reply) -> (r:
        DispatchNext)
        requires
            old(self).wf(),
            old(kernel)@.wf(),
            d@.held_by(old(self)@),
            d@.next_call().admits(reply),
            old(self)@.next_item_seq < u64::MAX,
        ensures
            final(self)@.same_buffers(old(self)@),
            final(kernel)@.same_build(old(kernel)@),
            final(self).wf(),
            final(kernel)@.wf(),
            (final(self)@, final(kernel)@, r@) == old(self)@.dispatch_after(
                old(kernel)@,
                d@,
                reply,
            ),
            r matches DispatchNext::Pending(e) ==> e@.held_by(final(self)@),
    {
        match d {
            Dispatch::Exhausted(f, req) => match self.advance_flush(f, reply) {
                FlushNext::Pending(g) => DispatchNext::Pending(Dispatch::Exhausted(g, req)),
                FlushNext::Finished => self.retry_set(kernel, req),
                FlushNext::Refused(e) => DispatchNext::Refused(e),
            },
            Dispatch::Opening(o, req, set) => match self.advance_open(o, reply) {
                OpenNext::Pending(p) => DispatchNext::Pending(Dispatch::Opening(p, req, set)),
                OpenNext::Opened => self.place_item(kernel, &req, set),
                OpenNext::Refused(e) => DispatchNext::Refused(e),
            },
            Dispatch::Flushing(f) => match self.advance_flush(f, reply) {
                FlushNext::Pending(g) => DispatchNext::Pending(Dispatch::Flushing(g)),
                FlushNext::Finished => DispatchNext::Recorded,
                FlushNext::Refused(e) => DispatchNext::Refused(e),
            },
        }
    }
}

/// A batch is opened with a command buffer, a fence, and the beginning of the
/// recording; where dispatches are stamped and no query pool exists, with one of
/// a query for each item and one for the origin before that.
pub proof fn law_batch_is_opened_step_by_step(
    m: ContextModel,
    pool: u64,
    commands: u64,
    fence: u64,
)
    requires
        m.recorder is None,
        i64::MIN <= m.ledger.live_objects <= i64::MAX - 3,
    ensures
        ({
            let (m0, o0) = m.opening();
            let first = if m.tuning.timestamps && m.queries is None {
                m0.open_after(o0->Pending_0, Reply::Handle(pool)).0
            } else {
                m0
            };
            let (m1, o1) = first.open_after(OpenBatch::Commands, Reply::Handle(commands));
            let (m2, o2) = m1.open_after(o1->Pending_0, Reply::Handle(fence));
            let (m3, o3) = m2.open_after(o2->Pending_0, Reply::Done);
            &&& o0 is Pending
            &&& m.tuning.timestamps && m.queries is None ==> {
                &&& o0->Pending_0.next_call() is CreateQueryPool
                &&& m.tuning.max_recorded_items < u32::MAX ==> o0->Pending_0.next_call()
                    == (Call::CreateQueryPool {
                    count: (m.tuning.max_recorded_items + 1) as u32,
                })
                &&& first.queries == Some(pool)
                &&& m.tuning.max_recorded_items < u32::MAX ==> first.query_capacity
                    == m.tuning.max_recorded_items + 1
                &&& m0.open_after(o0->Pending_0, Reply::Handle(pool)).1 == OpenOutcome::Pending(
                    OpenBatch::Commands,
                )
            }
            &&& !(m.tuning.timestamps && m.queries is None) ==> o0 == OpenOutcome::Pending(
                OpenBatch::Commands,
            ) && first.queries == m.queries
            &&& OpenBatch::Commands.next_call() == Call::AllocateCommandBuffer
            &&& o1 is Pending && o1->Pending_0.next_call() == Call::CreateFence
            &&& o2 is Pending && o2->Pending_0.next_call() == (Call::Begin { commands })
            &&& o3 is Opened
            &&& m2.ledger.orders == m.ledger.orders
            &&& m3.recorder is Some
            &&& m3.recorder->0.commands == commands && m3.recorder->0.fence == fence
            &&& m3.bank == m.open_bank()
        }),
{
    reveal(ContextModel::open_after);
}

/// A batch opens empty: its items follow those of the batch before, up to the
/// depth that the ramp allows; a stamped one has its origin.
pub proof fn law_opened_batch_is_empty(m: ContextModel, commands: u64, fence: u64)
    ensures
        ({
            let r = m.installed(commands, fence).recorder->0;
            &&& m.installed(commands, fence).recorder is Some
            &&& r.commands == commands && r.fence == fence
            &&& r.plan.items == 0 && r.plan.barriers == 0
            &&& r.plan.first_seq == m.next_item_seq && r.plan.next_seq == m.next_item_seq
            &&& r.plan.rule == m.tuning.barrier_rule
            &&& m.batch_depth() >= 1 ==> r.plan.max_items == m.batch_depth()
            &&& r.plan.max_retired_bytes == m.tuning.max_retired_bytes
            &&& r.retired.len() == 0 && r.kernels.len() == 0 && r.staging.len() == 0
            &&& r.stamps == (if m.tuning.timestamps {
                1u32
            } else {
                0u32
            })
            &&& !r.overflow && !r.pending_transfer
            &&& m.installed(commands, fence).next_item_seq == m.next_item_seq
            &&& m.installed(commands, fence).counts.items == m.counts.items
            &&& m.installed(commands, fence).counts.commands == m.counts.commands
            &&& m.counts.barriers < u64::MAX ==> m.installed(commands, fence).counts.barriers
                == m.counts.barriers + (if m.tuning.timestamps {
                1int
            } else {
                0int
            })
        }),
{
}

/// The first commands of a batch: with stamps, the queries' reset, the origin
/// stamp and the barrier that holds the first item until it is written; without
/// them, a barrier against the batch in flight where flushes are asynchronous.
pub proof fn law_first_commands_of_a_batch(m: ContextModel, commands: u64)
    requires
        m.tuning.timestamps ==> m.queries is Some,
    ensures
        m.tuning.timestamps ==> m.first_orders(commands) == seq![
            (Order::ResetQueries { commands, pool: m.queries->0, count: m.query_capacity }),
            (Order::Stamp { commands, pool: m.queries->0, query: 0, top: false }),
            (Order::OriginBarrier { commands }),
        ],
        !m.tuning.timestamps && m.tuning.async_flush && m.tuning.barrier_mode is All
            ==> m.first_orders(commands) == seq![(Order::Barrier { commands })],
        !m.tuning.timestamps && !(m.tuning.async_flush && m.tuning.barrier_mode is All)
            ==> m.first_orders(commands).len() == 0,
{
}

/// A batch that cannot be opened reports the driver's code and releases what it
/// had: nothing, its command buffer, or its fence and then its command buffer.
pub proof fn law_refused_opening_is_undone(
    m: ContextModel,
    count: u32,
    commands: u64,
    fence: u64,
    code: i32,
)
    ensures
        ({
            let refused = OpenOutcome::Refused(Failure::Vulkan(code));
            let f = Reply::Failed(code);
            &&& m.open_after(OpenBatch::Queries { count }, f) == (m, refused)
            &&& m.open_after(OpenBatch::Commands, f) == (m, refused)
            &&& m.open_after(OpenBatch::Fence { commands }, f).1 == refused
            &&& m.open_after(OpenBatch::Fence { commands }, f).0.ledger.orders == m.ledger.orders
                + seq![Order::FreeCommandBuffer(commands)]
            &&& m.open_after(OpenBatch::Begin { commands, fence }, f).1 == refused
            &&& m.open_after(OpenBatch::Begin { commands, fence }, f).0.ledger.orders
                == m.ledger.orders + seq![
                Order::DestroyFence(fence),
                Order::FreeCommandBuffer(commands),
            ]
        }),
{
    reveal(ContextModel::open_after);
    let l = m.ledger;
    assert(l.destroyed(Order::FreeCommandBuffer(commands)).orders =~= l.orders + seq![
        Order::FreeCommandBuffer(commands),
    ]);
    assert(l.destroyed(Order::DestroyFence(fence)).destroyed(
        Order::FreeCommandBuffer(commands),
    ).orders =~= l.orders + seq![
        Order::DestroyFence(fence),
        Order::FreeCommandBuffer(commands),
    ]);
}

/// A dispatch takes the next set of the bank of its batch: the sets of a batch
/// are handed out in order, those of the other bank after or before them all.
pub proof fn law_sets_are_taken_in_order(m: ContextModel, k: KernelModel)
    requires
        k.wf(),
        m.open_bank() <= 1,
        m.tuning.descriptor_mode is Arena,
    ensures
        k.watermark(m.batch_gen) >= k.arena() ==> m.acquired(k).2 is None,
        k.watermark(m.batch_gen) < k.arena() ==> {
            &&& m.open_bank() == 0 ==> m.acquired(k).2 == Some(k.watermark(m.batch_gen))
            &&& m.open_bank() == 1 ==> m.acquired(k).2 == Some(
                (k.arena() + k.watermark(m.batch_gen)) as u32,
            )
            &&& m.acquired(k).1.watermark(m.batch_gen) == k.watermark(m.batch_gen) + 1
            &&& m.acquired(k).0 == (ContextModel { bank: m.open_bank(), ..m })
        },
{
    assert(1 * k.arena() == k.arena() && 0 * k.arena() == 0) by (nonlinear_arith);
}

/// An item is recorded as the writes of its bindings, its barrier where it has
/// one, its kernel and constants, its launches, and its stamp where it has one.
pub proof fn law_item_is_recorded_in_order(
    commands: u64,
    k: KernelModel,
    req: RequestModel,
    set: u32,
    barrier: bool,
    stamp: Option<(u64, u32)>,
)
    requires
        req.repeats >= 1,
    ensures
        ({
            let row = item_row(commands, k, req, set, barrier, stamp);
            let n = k.pending.len() as int;
            let b = if barrier {
                1int
            } else {
                0int
            };
            let p = req.push.len() as int / 4;
            let l = n + b + 1 + p;
            let end = l + 2 * req.repeats - 1;
            &&& row.subrange(0, n) == k.binding_orders(set)
            &&& barrier ==> row[n] == (Order::Barrier { commands })
            &&& row[n + b] == (Order::BindKernel {
                commands,
                pipeline: k.pipeline,
                layout: k.layout,
                pool: k.pool,
                set,
            })
            &&& row.subrange(n + b + 1, l) == push_orders(commands, k.layout, req.push)
            &&& row.subrange(l, end) == launches(commands, req.x, req.y, req.z, req.repeats as nat)
            &&& stamp is None ==> row.len() == end
            &&& stamp matches Some((pool, query)) ==> row.len() == end + 1 && row[end]
                == (Order::Stamp { commands, pool, query, top: false })
        }),
{
    crate::ledger::law_launches_are_separated(
        commands,
        req.x,
        req.y,
        req.z,
        req.repeats as nat,
    );
    let row = item_row(commands, k, req, set, barrier, stamp);
    let n = k.pending.len() as int;
    let b = if barrier {
        1int
    } else {
        0int
    };
    let p = req.push.len() as int / 4;
    let l = n + b + 1 + p;
    let end = l + 2 * req.repeats - 1;
    assert(row.subrange(0, n) =~= k.binding_orders(set));
    assert(row.subrange(n + b + 1, l) =~= push_orders(commands, k.layout, req.push));
    assert(row.subrange(l, end) =~= launches(
        commands,
        req.x,
        req.y,
        req.z,
        req.repeats as nat,
    ));
}

/// A recorded item is counted once, its launches once for each repeat, and its
/// barriers with those between its repeats; it takes the next sequence number.
pub proof fn law_recorded_item_is_counted(
    m: ContextModel,
    k: KernelModel,
    req: RequestModel,
    set: u32,
)
    requires
        m.recorder is Some,
        req.repeats >= 1,
        m.counts.items < u64::MAX,
        m.counts.commands + req.repeats <= u64::MAX,
        m.counts.barriers + req.repeats <= u64::MAX,
        m.next_item_seq < u64::MAX,
    ensures
        ({
            let after = m.with_item(k, req, set);
            let own = m.recorder->0.plan.needs_barrier(req.access)
                && m.tuning.barrier_mode is All;
            &&& after.counts.items == m.counts.items + 1
            &&& after.counts.commands == m.counts.commands + req.repeats
            &&& after.counts.barriers == m.counts.barriers + (if own {
                1int
            } else {
                0int
            }) + (req.repeats - 1)
            &&& after.next_item_seq == m.next_item_seq + 1
            &&& after.recorder->0.plan == m.recorder->0.plan.recorded(req.access)
            &&& !after.recorder->0.pending_transfer
            &&& after.recorder->0.commands == m.recorder->0.commands
            &&& after.recorder->0.fence == m.recorder->0.fence
            &&& after.recorder->0.retired == m.recorder->0.retired
            &&& after.recorder->0.kernels == m.recorder->0.kernels
            &&& after.recorder->0.staging == m.recorder->0.staging
            &&& after.ledger.live_objects == m.ledger.live_objects
            &&& after.pool == m.pool && after.in_flight == m.in_flight && after.live == m.live
            &&& after.flushes == m.flushes && after.timing == m.timing
        }),
{
}

/// An item has a barrier before it where its accesses need one or a recorded
/// copy came just before it; and a stamp after it while the batch has its origin
/// and queries are left, else a stamped batch has overflown.
pub proof fn law_items_are_separated_and_stamped(
    m: ContextModel,
    k: KernelModel,
    req: RequestModel,
    set: u32,
)
    requires
        m.recorder is Some,
        m.recorder->0.stamps < u32::MAX,
    ensures
        ({
            let r = m.recorder->0;
            let stamped = m.tuning.timestamps && r.stamps > 0 && r.stamps < m.query_capacity;
            let separated = (r.plan.needs_barrier(req.access) || r.pending_transfer)
                && m.tuning.barrier_mode is All;
            &&& m.item_orders(k, req, set) == item_row(
                r.commands,
                k,
                req,
                set,
                separated,
                if stamped {
                    Some((m.queries->0, r.stamps))
                } else {
                    None
                },
            )
            &&& m.with_item(k, req, set).ledger.orders == m.ledger.orders + m.item_orders(
                k,
                req,
                set,
            )
            &&& stamped ==> m.with_item(k, req, set).recorder->0.stamps == r.stamps + 1
            &&& !stamped ==> m.with_item(k, req, set).recorder->0.stamps == r.stamps
            &&& m.with_item(k, req, set).recorder->0.overflow <==> r.overflow || (
            m.tuning.timestamps && r.stamps > 0 && r.stamps >= m.query_capacity)
        }),
{
}

/// A recorded copy has a barrier before it where its target was touched or a
/// copy came just before, and makes the next command have one.
pub proof fn law_copies_are_separated(r: RecorderModel, buffer: u64, access: Seq<Access>)
    ensures
        r.copy_barrier(buffer) <==> r.plan.transfer_needs_barrier(buffer) || r.pending_transfer,
        r.item_barrier(access) <==> r.plan.needs_barrier(access) || r.pending_transfer,
        r.with_copy(buffer).pending_transfer,
        r.with_copy(buffer).item_barrier(access),
        r.with_copy(buffer).plan == r.plan.transferred(buffer),
        !r.with_item(access).pending_transfer,
        r.with_item(access).plan == r.plan.recorded(access),
{
}

/// A dispatch into an open batch with room records one item: the kernel's next
/// set, the constants and the grid as they were asked for. Where the batch is
/// then full it is flushed for that.
pub proof fn law_dispatch_records_its_request(
    m: ContextModel,
    k: KernelModel,
    push: Seq<u8>,
    groups: Seq<u32>,
    repeats: u32,
    access: Seq<Access>,
)
    requires
        m.wf(),
        k.wf(),
        m.recorder is Some,
        groups.len() == 3,
        m.next_item_seq < u64::MAX,
        m.tuning.descriptor_mode is Arena,
        m.dispatch_refusal(k, push.len(), groups, repeats, "dispatch"@) is None,
        access_refusal(access, k.bound) is None,
        k.watermark(m.batch_gen) < k.arena(),
    ensures
        ({
            let r = m.recorder->0;
            let (after, k2, out) = m.dispatching(k, push, groups, repeats, access);
            let req = RequestModel {
                access,
                push,
                x: groups[0],
                y: groups[1],
                z: groups[2],
                repeats,
            };
            let set = (m.bank * k.arena() + k.watermark(m.batch_gen)) as u32;
            &&& k2.watermark(m.batch_gen) == k.watermark(m.batch_gen) + 1
            &&& k2.pending == k.pending && k2.pipeline == k.pipeline && k2.layout == k.layout
            &&& k2.pool == k.pool
            &&& after.ledger.orders == m.ledger.orders + m.item_orders(k2, req, set)
            &&& r.plan.items + 1 < r.plan.max_items ==> out is Recorded && after.recorder is Some
            &&& r.plan.items + 1 >= r.plan.max_items ==> out is Pending && after.recorder is None
                && after.flushes == m.flushes.update(5, m.flushes[5].wrapping_add(1))
        }),
{
    reveal(ContextModel::set_placed);
    reveal(ContextModel::item_placed);
    reveal(ContextModel::flushing);
    let (m1, k1, set) = m.acquired(k);
    let req = RequestModel { access, push, x: groups[0], y: groups[1], z: groups[2], repeats };
    assert(m1 =~= m);
    assert(set is Some);
    assert(m.opening() == (m, OpenOutcome::Opened));
    let after = m.with_item(k1, req, set->0);
    assert(after.recorder->0.plan.items == m.recorder->0.plan.items + 1);
    assert(after.poison_refusal() is None);
}

/// A dispatch that is refused changes nothing and says why: its own fault first,
/// and then the declaration's.
pub proof fn law_refused_dispatch_changes_nothing(
    m: ContextModel,
    k: KernelModel,
    push: Seq<u8>,
    groups: Seq<u32>,
    repeats: u32,
    access: Seq<Access>,
)
    ensures
        m.dispatch_refusal(k, push.len(), groups, repeats, "dispatch"@) matches Some(e)
            ==> m.dispatching(k, push, groups, repeats, access) == (
            m,
            k,
            DispatchOutcome::Refused(e),
        ),
        m.dispatch_refusal(k, push.len(), groups, repeats, "dispatch"@) is None && access_refusal(
            access,
            k.bound,
        ) is Some ==> m.dispatching(k, push, groups, repeats, access) == (
            m,
            k,
            DispatchOutcome::Refused(Failure::Unsupported(access_refusal(access, k.bound)->0)),
        ),
{
}

/// A kernel without a free set has the batch flushed for it, and the dispatch
/// waits for that; one whose arena is still full after it is refused.
pub proof fn law_exhausted_kernel_flushes(
    m: ContextModel,
    k: KernelModel,
    push: Seq<u8>,
    groups: Seq<u32>,
    repeats: u32,
    access: Seq<Access>,
)
    requires
        m.wf(),
        k.wf(),
        m.recorder is Some,
        m.tuning.descriptor_mode is Arena,
        m.dispatch_refusal(k, push.len(), groups, repeats, "dispatch"@) is None,
        access_refusal(access, k.bound) is None,
        k.watermark(m.batch_gen) >= k.arena(),
    ensures
        ({
            let (after, k2, out) = m.dispatching(k, push, groups, repeats, access);
            &&& out is Pending && out->Pending_0 is Exhausted
            &&& out->Pending_0.next_call() == (Call::End { commands: m.recorder->0.commands })
            &&& after.flushes == m.flushes.update(6, m.flushes[6].wrapping_add(1))
            &&& after.ledger.orders == m.ledger.orders
        }),
        arena_text(k.arena()) == "the kernel's descriptor arena of "@ + decimal_text(
            k.arena() as nat,
        ) + " set(s) is exhausted after a flush"@,
{
    reveal(ContextModel::flushing);
    let (m1, k1, set) = m.acquired(k);
    assert(set is None && m1 == m);
    assert(m.poison_refusal() is None);
    assert(m.flushing(FlushReason::DescriptorsExhausted).1 is Pending);
}

/// A dispatch that waited for a flush goes on where the flush ended: it is
/// refused with it, tried again after one for its kernel's sets, and recorded
/// after one for a full batch; one that waited for its batch is recorded into it.
pub proof fn law_waiting_dispatch_goes_on(
    m: ContextModel,
    k: KernelModel,
    f: FlushModel,
    o: OpenBatch,
    req: RequestModel,
    set: u32,
    reply: Reply,
)
    ensures
        m.flush_after(f, reply).1 matches FlushOutcome::Refused(e) ==> {
            &&& m.dispatch_after(k, DispatchModel::Flushing(f), reply) == (
                m.flush_after(f, reply).0,
                k,
                DispatchOutcome::Refused(e),
            )
            &&& m.dispatch_after(k, DispatchModel::Exhausted(f, req), reply) == (
                m.flush_after(f, reply).0,
                k,
                DispatchOutcome::Refused(e),
            )
        },
        m.flush_after(f, reply).1 is Finished ==> {
            &&& m.dispatch_after(k, DispatchModel::Flushing(f), reply) == (
                m.flush_after(f, reply).0,
                k,
                DispatchOutcome::Recorded,
            )
            &&& m.dispatch_after(k, DispatchModel::Exhausted(f, req), reply)
                == m.flush_after(f, reply).0.retried(k, req)
        },
        m.flush_after(f, reply).1 matches FlushOutcome::Pending(g) ==> {
            &&& m.dispatch_after(k, DispatchModel::Flushing(f), reply) == (
                m.flush_after(f, reply).0,
                k,
                DispatchOutcome::Pending(DispatchModel::Flushing(g)),
            )
            &&& m.dispatch_after(k, DispatchModel::Exhausted(f, req), reply) == (
                m.flush_after(f, reply).0,
                k,
                DispatchOutcome::Pending(DispatchModel::Exhausted(g, req)),
            )
        },
        m.open_after(o, reply).1 is Opened ==> m.dispatch_after(
            k,
            DispatchModel::Opening(o, req, set),
            reply,
        ).0.ledger.orders == m.open_after(o, reply).0.ledger.orders + m.open_after(
            o,
            reply,
        ).0.item_orders(k, req, set),
        m.open_after(o, reply).1 matches OpenOutcome::Refused(e) ==> m.dispatch_after(
            k,
            DispatchModel::Opening(o, req, set),
            reply,
        ) == (m.open_after(o, reply).0, k, DispatchOutcome::Refused(e)),
{
    reveal(ContextModel::item_placed);
    reveal(ContextModel::flushing);
}

/// A dispatch tried again after its flush is recorded with the first set of the
/// fresh generation, and is refused only where the kernel has no set at all.
pub proof fn law_retried_dispatch_takes_a_fresh_set(
    m: ContextModel,
    k: KernelModel,
    req: RequestModel,
)
    requires
        m.tuning.descriptor_mode is Arena,
    ensures
        k.watermark(m.batch_gen) >= k.arena() ==> m.retried(k, req).2 == DispatchOutcome::Refused(
            Failure::Unsupported(arena_text(k.arena())),
        ),
        k.watermark(m.batch_gen) < k.arena() ==> m.retried(k, req).1.watermark(m.batch_gen)
            == k.watermark(m.batch_gen) + 1,
{
    reveal(ContextModel::retried);
}

} // verus!
