//! One logical device with one compute queue: its buffers and kernels, the
//! batch being recorded and the batch in flight, and every check and decision
//! made about them.
//!
//! A context makes no driver call itself. A command that cannot fail is queued
//! (`take_orders`); one that can is named by the operation in progress and its
//! reply handed back to it.

pub mod exclusive;
pub mod flush;
pub mod record;
pub mod retire;
pub mod timed;
pub mod transfer;

use crate::batch::{
    env_flag, env_u32, env_u64, flag_of, BarrierRule, BatchModel, BatchPlan, FlushReason,
};
use crate::batch::{MAX_RECORDED_ITEMS, MAX_RETIRED_BYTES, RAMP_FIRST, SETS_PER_KERNEL_POOL};
use crate::device::{DeviceReport, Limits, OpenPlan};
use crate::driver::Reply;
use crate::error::{AckError, Failure};
use crate::kernel::{Binding, BuildNext, Kernel, KernelBuild, KernelModel, KernelPlan};
use crate::ledger::{
    fresh_ledger, kernel_orders, law_destroyed_objects_are_counted, law_leaked_objects_are_counted,
    lemma_destroyed_twice, lemma_leaked_twice, pair_orders, Ledger, LedgerModel, Order,
};
use crate::pool::{fresh_pool, Pair, Pool, PoolModel, PoolStats};
use crate::raw_buffer::{HOST_CACHED, HOST_COHERENT, HOST_VISIBLE};
use crate::text::{append_decimal, budget, decimal_text};
use std::collections::BTreeSet;
use vstd::arithmetic::power2::pow2;
use vstd::prelude::*;
use vstd::string::*;

verus! {

/// The smallest ceiling a pool has by default.
pub const POOL_FLOOR_BYTES: u64 = 67_108_864;

/// When a freed buffer's pair may be used again. `Immediate` is a sabotage: it
/// shows what waiting for the batch is for.
#[derive(Clone, Copy, Debug, PartialEq, Eq, Structural)]
pub enum PoolMode {
    /// Once no recorded or submitted command can name it.
    Retired,
    /// The instant it is freed.
    Immediate,
}

/// Whether barriers are recorded where they are due. `NoBarrier` is a sabotage:
/// it shows what the barriers are for.
#[derive(Clone, Copy, Debug, PartialEq, Eq, Structural)]
pub enum BarrierMode {
    All,
    NoBarrier,
}

/// Whether a recorded dispatch takes a descriptor set of its own. `SingleSet` is
/// a sabotage: it shows what the arena is for.
#[derive(Clone, Copy, Debug, PartialEq, Eq, Structural)]
pub enum DescriptorMode {
    Arena,
    SingleSet,
}

/// What a context was tuned to.
#[derive(Clone, Copy, Debug, PartialEq, Eq, Structural)]
pub struct Tuning {
    /// A flush that promises nothing leaves its batch in flight.
    pub async_flush: bool,
    /// The batches after a completing flush start short and double.
    pub batch_ramp: bool,
    /// Uploads are recorded into the batch.
    pub deferred_upload: bool,
    /// The dispatch timestamp instrument is on.
    pub timestamps: bool,
    pub max_recorded_items: u32,
    pub max_retired_bytes: u64,
    pub barrier_rule: BarrierRule,
    pub pool_mode: PoolMode,
    pub barrier_mode: BarrierMode,
    pub descriptor_mode: DescriptorMode,
}

/// The texts of the tuning variables, where they are set.
#[derive(Clone, Debug)]
pub struct TuningTexts {
    pub async_flush: Option<String>,
    pub batch_ramp: Option<String>,
    pub deferred_upload: Option<String>,
    pub dispatch_timestamps: Option<String>,
    pub max_recorded_items: Option<String>,
    pub max_retired_bytes: Option<String>,
    pub sets_per_kernel_pool: Option<String>,
    pub buffer_pool: Option<String>,
    pub buffer_pool_bytes: Option<String>,
    pub barriers: Option<String>,
}

pub open spec fn text_of(o: Option<String>) -> Option<Seq<char>> {
    match o {
        Some(s) => Some(s@),
        None => None,
    }
}

fn borrowed(o: &Option<String>) -> (r: Option<&str>)
    ensures
        (match r {
            Some(s) => Some(s@),
            None => None,
        }) == text_of(*o),
{
    match o {
        Some(s) => Some(s.as_str()),
        None => None,
    }
}

/// The number in a tuning text, or the default.
pub open spec fn number_of(o: Option<String>, limit: nat, default: nat) -> nat {
    match budget(text_of(o), limit) {
        Some(n) => n,
        None => default,
    }
}

impl TuningTexts {
    pub open spec fn tuning(self) -> Tuning {
        Tuning {
            async_flush: flag_of(text_of(self.async_flush), true),
            batch_ramp: flag_of(text_of(self.batch_ramp), true),
            deferred_upload: flag_of(text_of(self.deferred_upload), false),
            timestamps: flag_of(text_of(self.dispatch_timestamps), false),
            max_recorded_items: number_of(
                self.max_recorded_items,
                u32::MAX as nat,
                MAX_RECORDED_ITEMS as nat,
            ) as u32,
            max_retired_bytes: number_of(
                self.max_retired_bytes,
                u64::MAX as nat,
                MAX_RETIRED_BYTES as nat,
            ) as u64,
            barrier_rule: if text_of(self.barriers) == Some("always"@) {
                BarrierRule::Always
            } else {
                BarrierRule::Declared
            },
            pool_mode: PoolMode::Retired,
            barrier_mode: BarrierMode::All,
            descriptor_mode: DescriptorMode::Arena,
        }
    }
}

/// A device-local storage buffer; it knows which context made it.
#[derive(Debug)]
pub struct Buffer {
    pub buffer: u64,
    memory: u64,
    pub bytes: u64,
    ctx_id: u64,
    id: u64,
}

/// What a `Buffer` holds.
pub ghost struct BufferModel {
    pub buffer: u64,
    pub memory: u64,
    pub bytes: u64,
    pub ctx_id: u64,
    pub id: u64,
}

impl BufferModel {
    /// The size the driver's buffer was created with: whole words.
    pub open spec fn allocated(self) -> int {
        whole_words(self.bytes as int)
    }

    pub open spec fn wf(self) -> bool {
        self.bytes > 0 && self.allocated() <= u64::MAX
    }

    pub open spec fn pair(self) -> Pair {
        Pair { buffer: self.buffer, memory: self.memory, allocated: self.allocated() as u64 }
    }
}

/// The next multiple of a word.
pub open spec fn whole_words(bytes: int) -> int {
    (bytes + 3) / 4 * 4
}

impl View for Buffer {
    type V = BufferModel;

    closed spec fn view(&self) -> BufferModel {
        BufferModel {
            buffer: self.buffer,
            memory: self.memory,
            bytes: self.bytes,
            ctx_id: self.ctx_id,
            id: self.id,
        }
    }
}

impl Buffer {
    /// The creating context's id.
    pub fn context_id(&self) -> (r: u64)
        ensures
            r == self@.ctx_id,
    {
        self.ctx_id
    }

    /// This buffer's id within its context.
    pub fn id(&self) -> (r: u64)
        ensures
            r == self@.id,
    {
        self.id
    }

    /// The size the caller asked for.
    pub fn size(&self) -> (r: u64)
        ensures
            r == self@.bytes,
    {
        self.bytes
    }
}

/// A destroyed kernel's objects, waiting for the fence of the batch that may
/// name them.
#[derive(Clone, Copy, Debug, PartialEq, Eq, Structural)]
pub struct RetiredKernel {
    pub pipeline: u64,
    pub layout: u64,
    pub dsl: u64,
    pub pool: u64,
}

/// The staging pair of a recorded upload.
#[derive(Clone, Copy, Debug, PartialEq, Eq, Structural)]
pub struct Staging {
    pub buffer: u64,
    pub memory: u64,
}

/// One open batch.
#[derive(Debug)]
pub struct Recorder {
    commands: u64,
    fence: u64,
    plan: BatchPlan,
    retired: Vec<Pair>,
    kernels: Vec<RetiredKernel>,
    stamps: u32,
    overflow: bool,
    staging: Vec<Staging>,
    pending_transfer: bool,
}

/// What a `Recorder` holds.
#[verifier::ext_equal]
pub ghost struct RecorderModel {
    pub commands: u64,
    pub fence: u64,
    pub plan: BatchModel,
    /// Pairs freed while this batch may name them.
    pub retired: Seq<Pair>,
    pub kernels: Seq<RetiredKernel>,
    /// Stamps written; the first is the origin.
    pub stamps: u32,
    /// The batch outran the query pool.
    pub overflow: bool,
    pub staging: Seq<Staging>,
    /// A recorded upload's copy is the last command.
    pub pending_transfer: bool,
}

impl View for Recorder {
    type V = RecorderModel;

    closed spec fn view(&self) -> RecorderModel {
        RecorderModel {
            commands: self.commands,
            fence: self.fence,
            plan: self.plan@,
            retired: self.retired@,
            kernels: self.kernels@,
            stamps: self.stamps,
            overflow: self.overflow,
            staging: self.staging@,
            pending_transfer: self.pending_transfer,
        }
    }
}

/// One batch that was submitted and not finished.
#[derive(Debug)]
pub struct Submitted {
    commands: u64,
    fence: u64,
    what: String,
    retired: Vec<Pair>,
    kernels: Vec<RetiredKernel>,
    stamps: u32,
    overflow: bool,
    bank: u32,
    staging: Vec<Staging>,
}

/// What a `Submitted` holds.
#[verifier::ext_equal]
pub ghost struct SubmittedModel {
    pub commands: u64,
    pub fence: u64,
    /// The batch's description.
    pub what: Seq<char>,
    pub retired: Seq<Pair>,
    pub kernels: Seq<RetiredKernel>,
    pub stamps: u32,
    pub overflow: bool,
    /// The descriptor bank its kernels' sets came from.
    pub bank: u32,
    pub staging: Seq<Staging>,
}

impl View for Submitted {
    type V = SubmittedModel;

    closed spec fn view(&self) -> SubmittedModel {
        SubmittedModel {
            commands: self.commands,
            fence: self.fence,
            what: self.what@,
            retired: self.retired@,
            kernels: self.kernels@,
            stamps: self.stamps,
            overflow: self.overflow,
            bank: self.bank,
            staging: self.staging@,
        }
    }
}

/// Every pair of a row was allocated at least a word.
pub open spec fn all_words(pairs: Seq<Pair>) -> bool {
    forall|i: int| 0 <= i < pairs.len() ==> (#[trigger] pairs[i]).allocated >= 4
}

/// Every id of a set is below the next one.
pub open spec fn all_below(live: Set<u64>, next: u64) -> bool {
    forall|id: u64| #[trigger] live.contains(id) ==> id < next
}

/// What was recorded.
#[derive(Clone, Copy, Debug, PartialEq, Eq, Structural)]
pub struct DispatchCounts {
    pub items: u64,
    pub commands: u64,
    pub barriers: u64,
}

/// What was timed.
#[derive(Clone, Copy, Debug, PartialEq, Eq, Structural)]
pub struct TimingCounts {
    pub flushes: u64,
    pub items: u64,
    pub span_ns: u64,
    pub min_item_ns: u64,
    pub max_item_ns: u64,
    pub unresolved: u64,
}

/// What the dispatch instrument has counted and timed.
#[derive(Clone, Copy, Debug, PartialEq, Eq, Structural)]
pub struct DispatchStats {
    /// Items recorded.
    pub items: u64,
    /// Launches recorded, one for each repeat of an item.
    pub commands: u64,
    /// Barriers recorded between items, between repeats and after an origin
    /// stamp.
    pub barriers: u64,
    /// Every flush of a recorded batch.
    pub flushes: u64,
    /// Flushes whose stamps were read and folded in.
    pub timed_flushes: u64,
    /// Items covered by those stamps.
    pub timed_items: u64,
    /// Device nanoseconds over those items.
    pub device_ns: u64,
    /// The shortest and longest interval; zero when nothing was timed.
    pub min_item_ns: u64,
    pub max_item_ns: u64,
    /// Flushes that carried stamps whose span was not folded in.
    pub unresolved_flushes: u64,
    pub timestamps_enabled: bool,
}

/// What never changes about a context.
pub ghost struct FixedModel {
    pub id: u64,
    pub report: DeviceReport,
    pub queue_family: u32,
    pub subgroup_size_control: bool,
    pub timestamp_valid_bits: u32,
    pub limits: Limits,
    pub memory_types: Seq<u32>,
    pub sets_per_kernel_pool: u32,
}

/// What a `Context` holds.
#[verifier::ext_equal]
pub ghost struct ContextModel {
    pub fixed: FixedModel,
    pub tuning: Tuning,
    /// Ids of the buffers that were created and not destroyed.
    pub live: Set<u64>,
    pub next_buffer: u64,
    pub ledger: LedgerModel,
    pub pool: PoolModel,
    pub recorder: Option<RecorderModel>,
    pub in_flight: Option<SubmittedModel>,
    /// Flushes of a recorded batch, by reason.
    pub flushes: Seq<u64>,
    /// Moved by every flush; a kernel's sets are free again in a new one.
    pub batch_gen: u64,
    /// The descriptor bank of the open batch.
    pub bank: u32,
    /// Batches submitted without completing since the last completing flush.
    pub ramp: u32,
    pub next_item_seq: u64,
    pub counts: DispatchCounts,
    pub timing: TimingCounts,
    /// The instrument's query pool and the queries in it.
    pub queries: Option<u64>,
    pub query_capacity: u32,
}

/// A kernel bound to buffers, in order.
pub open spec fn bound_to(k: KernelModel, buffers: Seq<BufferModel>) -> KernelModel {
    KernelModel {
        bound: Seq::new(buffers.len(), |i: int| buffers[i].id),
        pending: Seq::new(
            buffers.len(),
            |i: int| Binding { buffer: buffers[i].buffer, bytes: buffers[i].bytes },
        ),
        ..k
    }
}

impl ContextModel {
    /// Ids are never used twice, an open batch is never due and takes the bank
    /// that the batch in flight does not use.
    pub open spec fn wf(self) -> bool {
        &&& self.loose()
        &&& self.recorder matches Some(r) ==> r.plan.items < r.plan.max_items
    }

    /// As `wf`, but for a batch that may be due.
    pub open spec fn loose(self) -> bool {
        &&& self.ledger.wf()
        &&& self.pool.wf()
        &&& self.fixed.memory_types.len() <= 32
        &&& self.flushes.len() == 9
        &&& self.bank <= 1
        &&& all_below(self.live, self.next_buffer)
        &&& match self.recorder {
            Some(r) => {
                &&& r.plan.wf()
                &&& r.plan.next_seq == self.next_item_seq
                &&& all_words(r.retired)
                &&& self.ledger.usable()
                &&& self.tuning.timestamps ==> self.queries is Some
            },
            None => true,
        }
        &&& match self.in_flight {
            Some(s) => {
                &&& s.bank <= 1
                &&& all_words(s.retired)
                &&& self.recorder is Some ==> self.bank == 1 - s.bank
            },
            None => true,
        }
    }

    /// The contexts are one context, with the same live buffers.
    pub open spec fn same_buffers(self, m: ContextModel) -> bool {
        self.fixed == m.fixed && self.live == m.live && self.next_buffer == m.next_buffer
    }

    /// The contexts are one context, and this one has a new buffer besides.
    pub open spec fn has_new_buffer(self, m: ContextModel, b: BufferModel) -> bool {
        &&& self.fixed == m.fixed
        &&& self.live == m.live.insert(b.id)
        &&& self.next_buffer == m.next_buffer + 1
        &&& b.id == m.next_buffer
        &&& b.ctx_id == m.fixed.id
    }

    /// Nothing is recorded and nothing is in flight.
    pub open spec fn quiet(self) -> bool {
        self.recorder is None && self.in_flight is None
    }

    /// The bank of the open batch, or of the batch about to open: the one that
    /// the batch in flight is not using.
    pub open spec fn open_bank(self) -> u32 {
        if self.recorder is Some {
            self.bank
        } else {
            match self.in_flight {
                Some(s) => (1 - s.bank) as u32,
                None => 0,
            }
        }
    }

    /// Uploads are recorded: asked for, with asynchronous flushes and without
    /// the timestamp instrument.
    pub open spec fn defers_uploads(self) -> bool {
        self.tuning.deferred_upload && self.tuning.async_flush && !self.tuning.timestamps
    }

    /// A flush for this reason sees its batch complete before it returns.
    pub open spec fn completes(self, reason: FlushReason) -> bool {
        !self.tuning.async_flush || self.tuning.timestamps || !(reason is BatchFull || reason
            is DescriptorsExhausted)
    }

    /// Items the batch about to open may record.
    pub open spec fn batch_depth(self) -> u32 {
        let depth = self.tuning.max_recorded_items;
        let ramped = RAMP_FIRST * pow2(if self.ramp < 16 {
            self.ramp as nat
        } else {
            16
        });
        if !self.tuning.batch_ramp || !self.tuning.async_flush || self.tuning.timestamps || depth
            <= ramped {
            depth
        } else {
            ramped as u32
        }
    }

    /// Why a buffer is refused, where it is.
    pub open spec fn buffer_refusal(self, b: BufferModel) -> Option<Failure> {
        if b.ctx_id != self.fixed.id {
            Some(
                Failure::Foreign(
                    "buffer "@ + decimal_text(b.id as nat) + " belongs to context "@ + decimal_text(
                        b.ctx_id as nat,
                    ) + ", not context "@ + decimal_text(self.fixed.id as nat),
                ),
            )
        } else if !self.live.contains(b.id) {
            Some(
                Failure::Freed(
                    "buffer "@ + decimal_text(b.id as nat) + " of context "@ + decimal_text(
                        self.fixed.id as nat,
                    ) + " was destroyed"@,
                ),
            )
        } else {
            None
        }
    }

    /// Why a kernel is refused, where it is.
    pub open spec fn kernel_refusal(self, k: KernelModel) -> Option<Failure> {
        if k.ctx_id != self.fixed.id {
            Some(
                Failure::Foreign(
                    "kernel belongs to context "@ + decimal_text(k.ctx_id as nat)
                        + ", not context "@ + decimal_text(self.fixed.id as nat),
                ),
            )
        } else {
            None
        }
    }

    /// Why the first of the buffers from `from` on that is refused is refused.
    pub open spec fn buffers_refusal(self, buffers: Seq<BufferModel>, from: int) -> Option<Failure>
        decreases buffers.len() - from,
    {
        if from >= buffers.len() {
            None
        } else {
            match self.buffer_refusal(buffers[from]) {
                Some(failure) => Some(failure),
                None => self.buffers_refusal(buffers, from + 1),
            }
        }
    }

    /// Why a context refuses every call, where it does.
    pub open spec fn poison_refusal(self) -> Option<Failure> {
        match self.ledger.poisoned {
            Some(why) => Some(Failure::Poisoned(why)),
            None => None,
        }
    }

    /// Why a binding is refused, where it is.
    pub open spec fn bind_refusal(self, k: KernelModel, buffers: Seq<BufferModel>) -> Option<
        Failure,
    > {
        if self.poison_refusal() is Some {
            self.poison_refusal()
        } else if self.kernel_refusal(k) is Some {
            self.kernel_refusal(k)
        } else if self.buffers_refusal(buffers, 0) is Some {
            self.buffers_refusal(buffers, 0)
        } else if buffers.len() != k.storage_buffers {
            Some(
                Failure::Unsupported(
                    "kernel expects "@ + decimal_text(k.storage_buffers as nat) + " buffers, got "@
                        + decimal_text(buffers.len()),
                ),
            )
        } else {
            None
        }
    }

    /// Why a dispatch is refused before anything is done for it, where it is.
    pub open spec fn dispatch_refusal(
        self,
        k: KernelModel,
        push: nat,
        groups: Seq<u32>,
        repeats: u32,
        what: Seq<char>,
    ) -> Option<Failure> {
        let max = self.fixed.limits.max_workgroup_count@;
        if self.poison_refusal() is Some {
            self.poison_refusal()
        } else if self.kernel_refusal(k) is Some {
            self.kernel_refusal(k)
        } else if k.storage_buffers > 0 && k.bound.len() == 0 {
            Some(Failure::Unsupported("dispatch of a kernel with no buffers bound"@))
        } else if first_dead(k.bound, self.live, 0) is Some {
            Some(
                Failure::Freed(
                    "buffer "@ + decimal_text(
                        k.bound[first_dead(k.bound, self.live, 0)->0] as nat,
                    ) + " bound to the kernel was destroyed before dispatch"@,
                ),
            )
        } else if push % 4 != 0 || push > k.push_bytes {
            Some(
                Failure::Unsupported(
                    "push constants of "@ + decimal_text(push)
                        + " bytes do not fit the kernel's "@ + decimal_text(k.push_bytes as nat)
                        + "-byte range (multiple of 4)"@,
                ),
            )
        } else if repeats == 0 {
            Some(Failure::Unsupported(what + " needs at least one repeat"@))
        } else {
            match first_bad_axis(groups, max, 0) {
                Some(axis) => Some(
                    Failure::Unsupported(
                        "workgroup count "@ + decimal_text(groups[axis] as nat) + " on axis "@
                            + decimal_text(axis as nat) + " is outside [1, "@ + decimal_text(
                            max[axis] as nat,
                        ) + "]"@,
                    ),
                ),
                None => None,
            }
        }
    }

    /// Why a kernel cannot be built, where that is known before its binary is
    /// read.
    pub open spec fn build_refusal(self, push_bytes: u32, subgroup: Option<u32>) -> Option<Failure> {
        let limit = self.fixed.limits.max_push_constant_bytes;
        if self.poison_refusal() is Some {
            self.poison_refusal()
        } else if push_bytes % 4 != 0 || push_bytes > limit || limit < 4 {
            Some(
                Failure::Unsupported(
                    "push constant range of "@ + decimal_text(push_bytes as nat)
                        + " bytes is not a multiple of 4 within the device's "@ + decimal_text(
                        limit as nat,
                    ),
                ),
            )
        } else if subgroup is Some && !self.fixed.subgroup_size_control {
            Some(
                Failure::Unsupported(
                    "kernel requires a fixed subgroup size but the device has no subgroupSizeControl"@,
                ),
            )
        } else {
            None
        }
    }

    /// What a kernel of this context is built to.
    pub open spec fn kernel_plan(
        self,
        storage_buffers: u32,
        push_bytes: u32,
        subgroup: Option<u32>,
    ) -> KernelPlan {
        KernelPlan {
            storage_buffers,
            push_bytes: if push_bytes < 4 {
                4
            } else {
                push_bytes
            },
            subgroup,
            arena: if self.fixed.sets_per_kernel_pool < 1 {
                1
            } else {
                self.fixed.sets_per_kernel_pool
            },
            ctx_id: self.fixed.id,
        }
    }
}

/// The first place of a bound buffer that is no longer live.
pub open spec fn first_dead(bound: Seq<u64>, live: Set<u64>, from: int) -> Option<int>
    decreases bound.len() - from,
{
    if from >= bound.len() {
        None
    } else if !live.contains(bound[from]) {
        Some(from)
    } else {
        first_dead(bound, live, from + 1)
    }
}

/// The first axis whose group count is zero or over the device's limit.
pub open spec fn first_bad_axis(groups: Seq<u32>, max: Seq<u32>, from: int) -> Option<int>
    decreases groups.len() - from,
{
    if from >= groups.len() {
        None
    } else if groups[from] == 0 || groups[from] > max[from] {
        Some(from)
    } else {
        first_bad_axis(groups, max, from + 1)
    }
}

/// A freed buffer is refused at once, and a dispatch bound to one is too.
pub proof fn law_a_freed_buffer_is_refused(
    m: ContextModel,
    b: BufferModel,
    k: KernelModel,
    slot: int,
    push: nat,
    groups: Seq<u32>,
    repeats: u32,
    what: Seq<char>,
)
    requires
        !m.live.contains(b.id),
        0 <= slot < k.bound.len(),
        k.bound[slot] == b.id,
    ensures
        m.buffer_refusal(b) is Some,
        m.dispatch_refusal(k, push, groups, repeats, what) is Some,
{
    lemma_first_dead(k.bound, m.live, 0, slot);
}

proof fn lemma_first_dead(bound: Seq<u64>, live: Set<u64>, from: int, slot: int)
    requires
        0 <= from <= slot < bound.len(),
        !live.contains(bound[slot]),
    ensures
        first_dead(bound, live, from) is Some,
    decreases bound.len() - from,
{
    if live.contains(bound[from]) {
        lemma_first_dead(bound, live, from + 1, slot);
    }
}

/// A dispatch that is not refused launches a grid the device admits, with push
/// constants that fit and with every bound buffer alive.
pub proof fn law_an_accepted_dispatch_is_valid(
    m: ContextModel,
    k: KernelModel,
    push: nat,
    groups: Seq<u32>,
    repeats: u32,
    what: Seq<char>,
)
    requires
        m.dispatch_refusal(k, push, groups, repeats, what) is None,
        groups.len() == 3,
    ensures
        m.ledger.usable(),
        k.ctx_id == m.fixed.id,
        push % 4 == 0 && push <= k.push_bytes,
        repeats >= 1,
        forall|i: int| 0 <= i < k.bound.len() ==> m.live.contains(#[trigger] k.bound[i]),
        forall|i: int|
            0 <= i < 3 ==> 1 <= (#[trigger] groups[i])
                <= m.fixed.limits.max_workgroup_count@[i],
{
    assert forall|i: int| 0 <= i < k.bound.len() implies m.live.contains(
        #[trigger] k.bound[i],
    ) by {
        if !m.live.contains(k.bound[i]) {
            lemma_first_dead(k.bound, m.live, 0, i);
        }
    }
    reveal_with_fuel(first_bad_axis, 4);
}

/// A healthy context leaks nothing, and neither does one whose device is lost.
pub proof fn law_only_an_unknown_device_leaks(m: ContextModel)
    requires
        m.wf(),
        m.ledger.usable() || m.ledger.lost,
    ensures
        m.ledger.leaked == 0,
{
}

/// The orders that destroy a row of kernels.
pub open spec fn kernel_rows(kernels: Seq<RetiredKernel>) -> Seq<Order>
    decreases kernels.len(),
{
    if kernels.len() == 0 {
        Seq::empty()
    } else {
        let k = kernels.last();
        kernel_rows(kernels.drop_last()) + kernel_orders(k.pool, k.pipeline, k.layout, k.dsl)
    }
}

/// The orders that destroy a row of staging pairs.
pub open spec fn staging_rows(staging: Seq<Staging>) -> Seq<Order>
    decreases staging.len(),
{
    if staging.len() == 0 {
        Seq::empty()
    } else {
        staging_rows(staging.drop_last()) + pair_orders(
            staging.last().buffer,
            staging.last().memory,
        )
    }
}

/// The ledger once a batch's retired pairs and kernels are released, or left
/// allocated and counted where the device state is unknown.
pub open spec fn retired_ledger(
    l: LedgerModel,
    p: PoolModel,
    retired: Seq<Pair>,
    kernels: Seq<RetiredKernel>,
) -> LedgerModel {
    if l.unknown() {
        l.leaked(2 * retired.len() + 4 * kernels.len())
    } else {
        l.destroyed_all(p.declined_orders(retired)).destroyed_all(kernel_rows(kernels))
    }
}

/// The pool once a batch's retired pairs are released.
pub open spec fn retired_pool(l: LedgerModel, p: PoolModel, retired: Seq<Pair>) -> PoolModel {
    if l.unknown() {
        p
    } else {
        p.recycled_all(retired)
    }
}

/// The ledger once a batch's staging pairs are released; they are never pooled.
pub open spec fn staged_ledger(l: LedgerModel, staging: Seq<Staging>) -> LedgerModel {
    if l.unknown() {
        l.leaked(2 * staging.len())
    } else {
        l.destroyed_all(staging_rows(staging))
    }
}

/// Releasing changes neither whether the context is usable nor whether it may
/// leak, and leaks only where the device state is unknown.
pub proof fn lemma_release_keeps_state(
    l: LedgerModel,
    p: PoolModel,
    retired: Seq<Pair>,
    kernels: Seq<RetiredKernel>,
    staging: Seq<Staging>,
)
    ensures
        retired_ledger(l, p, retired, kernels).poisoned == l.poisoned,
        retired_ledger(l, p, retired, kernels).lost == l.lost,
        staged_ledger(l, staging).poisoned == l.poisoned,
        staged_ledger(l, staging).lost == l.lost,
        l.wf() ==> retired_ledger(l, p, retired, kernels).wf(),
        l.wf() ==> staged_ledger(l, staging).wf(),
{
    law_leaked_objects_are_counted(l, 2 * retired.len() + 4 * kernels.len());
    law_leaked_objects_are_counted(l, 2 * staging.len());
    law_destroyed_objects_are_counted(l, p.declined_orders(retired));
    law_destroyed_objects_are_counted(
        l.destroyed_all(p.declined_orders(retired)),
        kernel_rows(kernels),
    );
    law_destroyed_objects_are_counted(l, staging_rows(staging));
}

/// Release a batch's retired pairs and kernels.
fn release_retired(
    pool: &mut Pool,
    ledger: &mut Ledger,
    retired: &Vec<Pair>,
    kernels: &Vec<RetiredKernel>,
)
    requires
        old(pool).wf(),
        old(ledger)@.wf(),
        all_words(retired@),
    ensures
        final(pool).wf(),
        final(pool)@ == retired_pool(old(ledger)@, old(pool)@, retired@),
        final(ledger)@ == retired_ledger(old(ledger)@, old(pool)@, retired@, kernels@),
        final(ledger)@.wf(),
{
    proof {
        lemma_release_keeps_state(
            old(ledger)@,
            old(pool)@,
            retired@,
            kernels@,
            Seq::empty(),
        );
    }
    if ledger.is_unknown() {
        leak_each(ledger, retired.len(), 2);
        leak_each(ledger, kernels.len(), 4);
        proof {
            lemma_leaked_twice(old(ledger)@, 2 * retired@.len(), 4 * kernels@.len());
        }
        return;
    }
    pool.recycle_all(ledger, retired);
    destroy_kernels(ledger, kernels);
}

/// Count so many things of so many objects each as leaked.
fn leak_each(ledger: &mut Ledger, things: usize, objects: u64)
    requires
        old(ledger)@.wf(),
        old(ledger)@.unknown(),
        objects <= 4,
    ensures
        final(ledger)@ == old(ledger)@.leaked((objects * things) as nat),
        final(ledger)@.wf(),
        final(ledger)@.unknown(),
{
    let mut i: usize = 0;
    while i < things
        invariant
            i <= things,
            objects <= 4,
            ledger@ == old(ledger)@.leaked((objects * i) as nat),
            ledger@.wf(),
            ledger@.unknown(),
        decreases things - i,
    {
        proof {
            assert(objects * (i + 1) == objects * i + objects) by (nonlinear_arith);
            assert(objects * i >= 0) by (nonlinear_arith);
            lemma_leaked_twice(old(ledger)@, (objects * i) as nat, objects as nat);
            law_leaked_objects_are_counted(ledger@, objects as nat);
        }
        ledger.leak(objects);
        i += 1;
    }
}

fn destroy_kernels(ledger: &mut Ledger, kernels: &Vec<RetiredKernel>)
    ensures
        final(ledger)@ == old(ledger)@.destroyed_all(kernel_rows(kernels@)),
{
    let ghost l = ledger@;
    let mut i: usize = 0;
    proof {
        assert(kernels@.take(0) =~= Seq::<RetiredKernel>::empty());
    }
    while i < kernels.len()
        invariant
            i <= kernels.len(),
            ledger@ == l.destroyed_all(kernel_rows(kernels@.take(i as int))),
        decreases kernels.len() - i,
    {
        let k: RetiredKernel = kernels[i];
        proof {
            assert(kernels@.take(i + 1).drop_last() =~= kernels@.take(i as int));
            assert(kernels@.take(i + 1).last() == k);
            lemma_destroyed_twice(
                l,
                kernel_rows(kernels@.take(i as int)),
                kernel_orders(k.pool, k.pipeline, k.layout, k.dsl),
            );
        }
        ledger.destroy_kernel(k.pool, k.pipeline, k.layout, k.dsl);
        i += 1;
    }
    proof {
        assert(kernels@.take(i as int) =~= kernels@);
    }
}

fn destroy_staging(ledger: &mut Ledger, staging: &Vec<Staging>)
    ensures
        final(ledger)@ == old(ledger)@.destroyed_all(staging_rows(staging@)),
{
    let ghost l = ledger@;
    let mut i: usize = 0;
    proof {
        assert(staging@.take(0) =~= Seq::<Staging>::empty());
    }
    while i < staging.len()
        invariant
            i <= staging.len(),
            ledger@ == l.destroyed_all(staging_rows(staging@.take(i as int))),
        decreases staging.len() - i,
    {
        let s: Staging = staging[i];
        proof {
            assert(staging@.take(i + 1).drop_last() =~= staging@.take(i as int));
            assert(staging@.take(i + 1).last() == s);
            lemma_destroyed_twice(
                l,
                staging_rows(staging@.take(i as int)),
                pair_orders(s.buffer, s.memory),
            );
        }
        ledger.destroy_pair(s.buffer, s.memory);
        i += 1;
    }
    proof {
        assert(staging@.take(i as int) =~= staging@);
    }
}

/// Release a batch's staging pairs.
fn release_staging(ledger: &mut Ledger, staging: &Vec<Staging>)
    requires
        old(ledger)@.wf(),
    ensures
        final(ledger)@ == staged_ledger(old(ledger)@, staging@),
        final(ledger)@.wf(),
{
    proof {
        law_leaked_objects_are_counted(old(ledger)@, 2 * staging@.len());
        law_destroyed_objects_are_counted(old(ledger)@, staging_rows(staging@));
    }
    if ledger.is_unknown() {
        leak_each(ledger, staging.len(), 2);
    } else {
        destroy_staging(ledger, staging);
    }
}

/// One logical device, one compute queue, one command pool.
#[derive(Debug)]
pub struct Context {
    id: u64,
    report: DeviceReport,
    queue_family: u32,
    subgroup_size_control: bool,
    timestamp_valid_bits: u32,
    limits: Limits,
    memory_types: Vec<u32>,
    sets_per_kernel_pool: u32,
    tuning: Tuning,
    live_buffers: BTreeSet<u64>,
    next_buffer: u64,
    ledger: Ledger,
    pool: Pool,
    recorder: Option<Recorder>,
    in_flight: Option<Submitted>,
    flushes: [u64; 9],
    batch_gen: u64,
    bank: u32,
    ramp: u32,
    next_item_seq: u64,
    counts: DispatchCounts,
    timing: TimingCounts,
    queries: Option<u64>,
    query_capacity: u32,
}

impl View for Context {
    type V = ContextModel;

    closed spec fn view(&self) -> ContextModel {
        ContextModel {
            fixed: FixedModel {
                id: self.id,
                report: self.report,
                queue_family: self.queue_family,
                subgroup_size_control: self.subgroup_size_control,
                timestamp_valid_bits: self.timestamp_valid_bits,
                limits: self.limits,
                memory_types: self.memory_types@,
                sets_per_kernel_pool: self.sets_per_kernel_pool,
            },
            tuning: self.tuning,
            live: self.live_buffers@,
            next_buffer: self.next_buffer,
            ledger: self.ledger@,
            pool: self.pool@,
            recorder: match self.recorder {
                Some(r) => Some(r@),
                None => None,
            },
            in_flight: match self.in_flight {
                Some(s) => Some(s@),
                None => None,
            },
            flushes: self.flushes@,
            batch_gen: self.batch_gen,
            bank: self.bank,
            ramp: self.ramp,
            next_item_seq: self.next_item_seq,
            counts: self.counts,
            timing: self.timing,
            queries: self.queries,
            query_capacity: self.query_capacity,
        }
    }
}

/// The pool's ceiling where no tuning gives one: half of the device's memory.
pub open spec fn default_pool_bytes(device_local_bytes: u64) -> nat {
    if device_local_bytes / 2 < POOL_FLOOR_BYTES {
        POOL_FLOOR_BYTES as nat
    } else {
        (device_local_bytes / 2) as nat
    }
}

/// A context that has done nothing yet.
pub open spec fn fresh_context(plan: OpenPlan, texts: TuningTexts, id: u64) -> ContextModel {
    ContextModel {
        fixed: FixedModel {
            id,
            report: plan.report,
            queue_family: plan.queue_family,
            subgroup_size_control: plan.enabled.subgroup_size_control,
            timestamp_valid_bits: plan.timestamp_valid_bits,
            limits: plan.limits,
            memory_types: plan.memory_types@,
            sets_per_kernel_pool: number_of(
                texts.sets_per_kernel_pool,
                u32::MAX as nat,
                SETS_PER_KERNEL_POOL as nat,
            ) as u32,
        },
        tuning: texts.tuning(),
        live: Set::empty(),
        next_buffer: 1,
        ledger: fresh_ledger(),
        pool: fresh_pool(
            number_of(
                texts.buffer_pool_bytes,
                u64::MAX as nat,
                default_pool_bytes(plan.report.device_local_bytes),
            ) as u64,
            flag_of(text_of(texts.buffer_pool), true),
        ),
        recorder: None,
        in_flight: None,
        flushes: Seq::new(9, |i: int| 0u64),
        batch_gen: 1,
        bank: 0,
        ramp: 0,
        next_item_seq: 0,
        counts: DispatchCounts { items: 0, commands: 0, barriers: 0 },
        timing: TimingCounts {
            flushes: 0,
            items: 0,
            span_ns: 0,
            min_item_ns: u64::MAX,
            max_item_ns: 0,
            unresolved: 0,
        },
        queries: None,
        query_capacity: 0,
    }
}

impl Context {
    /// The context is consistent.
    pub closed spec fn wf(&self) -> bool {
        self@.wf() && self.pool.wf()
    }

    /// What `wf` says of the model.
    pub proof fn lemma_wf(&self)
        requires
            self.wf(),
        ensures
            self@.wf(),
    {
    }

    /// A context on an opened device.
    pub fn open_on(plan: OpenPlan, texts: &TuningTexts, id: u64) -> (r: Self)
        requires
            plan.memory_types@.len() <= 32,
        ensures
            r.wf(),
            r@ == fresh_context(plan, *texts, id),
    {
        let half: u64 = plan.report.device_local_bytes / 2;
        let pool_bytes: u64 = if half < POOL_FLOOR_BYTES {
            POOL_FLOOR_BYTES
        } else {
            half
        };
        let tuning = Tuning {
            async_flush: env_flag(borrowed(&texts.async_flush), true),
            batch_ramp: env_flag(borrowed(&texts.batch_ramp), true),
            deferred_upload: env_flag(borrowed(&texts.deferred_upload), false),
            timestamps: env_flag(borrowed(&texts.dispatch_timestamps), false),
            max_recorded_items: env_u32(borrowed(&texts.max_recorded_items), MAX_RECORDED_ITEMS),
            max_retired_bytes: env_u64(borrowed(&texts.max_retired_bytes), MAX_RETIRED_BYTES),
            barrier_rule: BarrierRule::from_env(borrowed(&texts.barriers)),
            pool_mode: PoolMode::Retired,
            barrier_mode: BarrierMode::All,
            descriptor_mode: DescriptorMode::Arena,
        };
        let ceiling: u64 = env_u64(borrowed(&texts.buffer_pool_bytes), pool_bytes);
        let pooled: bool = env_flag(borrowed(&texts.buffer_pool), true);
        let sets_per_kernel_pool: u32 = env_u32(
            borrowed(&texts.sets_per_kernel_pool),
            SETS_PER_KERNEL_POOL,
        );
        let ctx = Context {
            id,
            report: plan.report,
            queue_family: plan.queue_family,
            subgroup_size_control: plan.enabled.subgroup_size_control,
            timestamp_valid_bits: plan.timestamp_valid_bits,
            limits: plan.limits,
            memory_types: plan.memory_types,
            sets_per_kernel_pool,
            tuning,
            live_buffers: BTreeSet::new(),
            next_buffer: 1,
            ledger: Ledger::new(),
            pool: Pool::new(ceiling, pooled),
            recorder: None,
            in_flight: None,
            flushes: [0, 0, 0, 0, 0, 0, 0, 0, 0],
            batch_gen: 1,
            bank: 0,
            ramp: 0,
            next_item_seq: 0,
            counts: DispatchCounts { items: 0, commands: 0, barriers: 0 },
            timing: TimingCounts {
                flushes: 0,
                items: 0,
                span_ns: 0,
                min_item_ns: u64::MAX,
                max_item_ns: 0,
                unresolved: 0,
            },
            queries: None,
            query_capacity: 0,
        };
        proof {
            assert(ctx.flushes@ =~= Seq::new(9, |i: int| 0u64));
            assert(ctx@ =~= fresh_context(plan, *texts, id));
        }
        ctx
    }

    /// Refuse once the device state is unknown or the device is lost.
    fn check_live(&self) -> (r: Result<(), AckError>)
        ensures
            match self@.poison_refusal() {
                None => r is Ok,
                Some(failure) => r is Err && r->Err_0@ == failure,
            },
    {
        self.ledger.check_live()
    }

    /// Refuse a buffer of another context, or one that was destroyed.
    pub fn check_buffer(&self, b: &Buffer) -> (r: Result<(), AckError>)
        ensures
            match self@.buffer_refusal(b@) {
                None => r is Ok,
                Some(failure) => r is Err && r->Err_0@ == failure,
            },
    {
        if b.ctx_id != self.id {
            let mut s = String::from_str("buffer ");
            append_decimal(&mut s, b.id);
            s.append(" belongs to context ");
            append_decimal(&mut s, b.ctx_id);
            s.append(", not context ");
            append_decimal(&mut s, self.id);
            return Err(AckError::Foreign(s));
        }
        if !self.live_buffers.contains(&b.id) {
            let mut s = String::from_str("buffer ");
            append_decimal(&mut s, b.id);
            s.append(" of context ");
            append_decimal(&mut s, self.id);
            s.append(" was destroyed");
            return Err(AckError::Freed(s));
        }
        Ok(())
    }

    /// Refuse a kernel of another context.
    fn check_kernel(&self, k: &Kernel) -> (r: Result<(), AckError>)
        ensures
            match self@.kernel_refusal(k@) {
                None => r is Ok,
                Some(failure) => r is Err && r->Err_0@ == failure,
            },
    {
        if k.context_id() != self.id {
            let mut s = String::from_str("kernel belongs to context ");
            append_decimal(&mut s, k.context_id());
            s.append(", not context ");
            append_decimal(&mut s, self.id);
            return Err(AckError::Foreign(s));
        }
        Ok(())
    }

    /// Bind buffers to the kernel's storage bindings in order. Every buffer must
    /// be this context's and alive. No set is written here: a dispatch writes the
    /// binding into the set it takes.
    pub fn bind(&self, kernel: &mut Kernel, buffers: &[&Buffer]) -> (r: Result<(), AckError>)
        ensures
            ({
                let models = Seq::new(buffers@.len(), |i: int| buffers@[i]@);
                match self@.bind_refusal(old(kernel)@, models) {
                    Some(failure) => r is Err && r->Err_0@ == failure && final(kernel)@ == old(
                        kernel,
                    )@,
                    None => r is Ok && final(kernel)@ == bound_to(old(kernel)@, models),
                }
            }),
    {
        let ghost models = Seq::new(buffers@.len(), |i: int| buffers@[i]@);
        match self.check_live() {
            Ok(()) => {},
            Err(e) => {
                return Err(e);
            },
        }
        match self.check_kernel(kernel) {
            Ok(()) => {},
            Err(e) => {
                return Err(e);
            },
        }
        let mut bound: Vec<u64> = Vec::new();
        let mut pending: Vec<Binding> = Vec::new();
        let mut i: usize = 0;
        while i < buffers.len()
            invariant
                i <= buffers.len(),
                models == Seq::new(buffers@.len(), |i: int| buffers@[i]@),
                self@.buffers_refusal(models, 0) == self@.buffers_refusal(models, i as int),
                self@.poison_refusal() is None,
                self@.kernel_refusal(kernel@) is None,
                kernel@ == old(kernel)@,
                bound@.len() == i,
                pending@.len() == i,
                forall|j: int| 0 <= j < i ==> #[trigger] bound@[j] == buffers@[j]@.id,
                forall|j: int|
                    0 <= j < i ==> #[trigger] pending@[j] == (Binding {
                        buffer: buffers@[j]@.buffer,
                        bytes: buffers@[j]@.bytes,
                    }),
            decreases buffers.len() - i,
        {
            proof {
                assert(models[i as int] == buffers@[i as int]@);
            }
            match self.check_buffer(buffers[i]) {
                Ok(()) => {},
                Err(e) => {
                    return Err(e);
                },
            }
            bound.push(buffers[i].id);
            pending.push(Binding { buffer: buffers[i].buffer, bytes: buffers[i].bytes });
            i += 1;
        }
        if buffers.len() as u64 != kernel.storage_buffers() as u64 {
            let mut s = String::from_str("kernel expects ");
            append_decimal(&mut s, kernel.storage_buffers() as u64);
            s.append(" buffers, got ");
            append_decimal(&mut s, buffers.len() as u64);
            return Err(AckError::Unsupported(s));
        }
        proof {
            assert(bound@ =~= Seq::new(buffers@.len(), |i: int| buffers@[i]@.id));
            assert(pending@ =~= Seq::new(
                buffers@.len(),
                |i: int| Binding { buffer: buffers@[i]@.buffer, bytes: buffers@[i]@.bytes },
            ));
        }
        kernel.set_binding(bound, pending);
        Ok(())
    }

    /// Every check a dispatch makes before anything is done for it.
    fn check_dispatch(
        &self,
        kernel: &Kernel,
        push: usize,
        groups: &[u32; 3],
        repeats: u32,
        what: &str,
    ) -> (r: Result<(), AckError>)
        ensures
            match self@.dispatch_refusal(kernel@, push as nat, groups@, repeats, what@) {
                None => r is Ok,
                Some(failure) => r is Err && r->Err_0@ == failure,
            },
    {
        match self.check_live() {
            Ok(()) => {},
            Err(e) => {
                return Err(e);
            },
        }
        match self.check_kernel(kernel) {
            Ok(()) => {},
            Err(e) => {
                return Err(e);
            },
        }
        if kernel.storage_buffers() > 0 && kernel.bound().len() == 0 {
            return Err(
                AckError::Unsupported(
                    String::from_str("dispatch of a kernel with no buffers bound"),
                ),
            );
        }
        match self.find_dead(kernel.bound()) {
            Some(i) => {
                let mut s = String::from_str("buffer ");
                append_decimal(&mut s, kernel.bound()[i]);
                s.append(" bound to the kernel was destroyed before dispatch");
                return Err(AckError::Freed(s));
            },
            None => {},
        }
        if push % 4 != 0 || push as u64 > kernel.push_bytes() as u64 {
            let mut s = String::from_str("push constants of ");
            append_decimal(&mut s, push as u64);
            s.append(" bytes do not fit the kernel's ");
            append_decimal(&mut s, kernel.push_bytes() as u64);
            s.append("-byte range (multiple of 4)");
            return Err(AckError::Unsupported(s));
        }
        if repeats == 0 {
            let s = String::from_str(what).concat(" needs at least one repeat");
            return Err(AckError::Unsupported(s));
        }
        let mut axis: usize = 0;
        while axis < 3
            invariant
                axis <= 3,
                groups@.len() == 3,
                first_bad_axis(groups@, self@.fixed.limits.max_workgroup_count@, 0)
                    == first_bad_axis(
                    groups@,
                    self@.fixed.limits.max_workgroup_count@,
                    axis as int,
                ),
                self@.poison_refusal() is None,
                self@.kernel_refusal(kernel@) is None,
                !(kernel@.storage_buffers > 0 && kernel@.bound.len() == 0),
                first_dead(kernel@.bound, self@.live, 0) is None,
                !(push % 4 != 0 || push > kernel@.push_bytes),
                repeats != 0,
            decreases 3 - axis,
        {
            let count: u32 = groups[axis];
            let max: u32 = self.limits.max_workgroup_count[axis];
            if count == 0 || count > max {
                let mut s = String::from_str("workgroup count ");
                append_decimal(&mut s, count as u64);
                s.append(" on axis ");
                append_decimal(&mut s, axis as u64);
                s.append(" is outside [1, ");
                append_decimal(&mut s, max as u64);
                s.append("]");
                return Err(AckError::Unsupported(s));
            }
            axis += 1;
        }
        Ok(())
    }

    /// The first bound buffer that is no longer live.
    fn find_dead(&self, bound: &Vec<u64>) -> (r: Option<usize>)
        ensures
            match first_dead(bound@, self@.live, 0) {
                Some(i) => r is Some && r->0 == i && 0 <= i < bound@.len(),
                None => r is None,
            },
    {
        let mut i: usize = 0;
        while i < bound.len()
            invariant
                i <= bound.len(),
                first_dead(bound@, self@.live, 0) == first_dead(bound@, self@.live, i as int),
            decreases bound.len() - i,
        {
            if !self.live_buffers.contains(&bound[i]) {
                return Some(i);
            }
            i += 1;
        }
        None
    }

    /// Begin to build a compute pipeline from SPIR-V with so many storage
    /// buffer bindings and so many bytes of push constants.
    pub fn kernel(&self, spirv: &[u8], storage_buffers: u32, push_bytes: u32) -> (r: Result<
        KernelBuild,
        AckError,
    >)
        requires
            self@.kernel_plan(storage_buffers, push_bytes, None).wf(),
        ensures
            match self@.build_refusal(push_bytes, None) {
                Some(failure) => r is Err && r->Err_0@ == failure,
                None => match crate::kernel::spirv_words(spirv@) {
                    Some(words) => r is Ok && r->Ok_0@ == (crate::kernel::BuildModel {
                        plan: self@.kernel_plan(storage_buffers, push_bytes, None),
                        stage: crate::kernel::BuildStage::Module,
                        words,
                    }),
                    None => r is Err && r->Err_0@ == Failure::Io(
                        crate::kernel::spirv_refusal(spirv@),
                    ),
                },
            },
    {
        self.kernel_with_subgroup(spirv, storage_buffers, push_bytes, None)
    }

    /// As `kernel`, with a required subgroup size and full subgroups.
    pub fn kernel_with_subgroup(
        &self,
        spirv: &[u8],
        storage_buffers: u32,
        push_bytes: u32,
        required_subgroup_size: Option<u32>,
    ) -> (r: Result<KernelBuild, AckError>)
        requires
            self@.kernel_plan(storage_buffers, push_bytes, required_subgroup_size).wf(),
        ensures
            match self@.build_refusal(push_bytes, required_subgroup_size) {
                Some(failure) => r is Err && r->Err_0@ == failure,
                None => match crate::kernel::spirv_words(spirv@) {
                    Some(words) => r is Ok && r->Ok_0@ == (crate::kernel::BuildModel {
                        plan: self@.kernel_plan(
                            storage_buffers,
                            push_bytes,
                            required_subgroup_size,
                        ),
                        stage: crate::kernel::BuildStage::Module,
                        words,
                    }),
                    None => r is Err && r->Err_0@ == Failure::Io(
                        crate::kernel::spirv_refusal(spirv@),
                    ),
                },
            },
    {
        match self.check_live() {
            Ok(()) => {},
            Err(e) => {
                return Err(e);
            },
        }
        let range: u32 = if push_bytes < 4 {
            4
        } else {
            push_bytes
        };
        if push_bytes % 4 != 0 || range > self.limits.max_push_constant_bytes {
            let mut s = String::from_str("push constant range of ");
            append_decimal(&mut s, push_bytes as u64);
            s.append(" bytes is not a multiple of 4 within the device's ");
            append_decimal(&mut s, self.limits.max_push_constant_bytes as u64);
            return Err(AckError::Unsupported(s));
        }
        if required_subgroup_size.is_some() && !self.subgroup_size_control {
            return Err(
                AckError::Unsupported(
                    String::from_str(
                        "kernel requires a fixed subgroup size but the device has no subgroupSizeControl",
                    ),
                ),
            );
        }
        let arena: u32 = if self.sets_per_kernel_pool < 1 {
            1
        } else {
            self.sets_per_kernel_pool
        };
        KernelBuild::new(
            spirv,
            KernelPlan {
                storage_buffers,
                push_bytes: range,
                subgroup: required_subgroup_size,
                arena,
                ctx_id: self.id,
            },
        )
    }

    /// Sets of a kernel handed out since the last flush.
    pub fn descriptor_watermark(&self, kernel: &Kernel) -> (r: u32)
        ensures
            r == kernel@.watermark(self@.batch_gen),
    {
        kernel.watermark(self.batch_gen)
    }

    /// Host-visible memory property flags for readback staging, best first:
    /// cached and coherent, cached alone, and uncached as the last resort.
    pub fn readback_memory_preferences() -> (r: [u32; 3])
        ensures
            r@ == seq![14u32, 10u32, 6u32],
    {
        proof {
            assert(HOST_VISIBLE | HOST_CACHED | HOST_COHERENT == 14) by (bit_vector);
            assert(HOST_VISIBLE | HOST_CACHED == 10) by (bit_vector);
            assert(HOST_VISIBLE | HOST_COHERENT == 6) by (bit_vector);
        }
        let r: [u32; 3] = [
            HOST_VISIBLE | HOST_CACHED | HOST_COHERENT,
            HOST_VISIBLE | HOST_CACHED,
            HOST_VISIBLE | HOST_COHERENT,
        ];
        proof {
            assert(r@ =~= seq![14u32, 10u32, 6u32]);
        }
        r
    }

    /// Take the reply to a kernel build's call.
    pub fn advance_kernel(&mut self, build: KernelBuild, reply: Reply) -> (r: BuildNext)
        requires
            old(self).wf(),
            build@.plan.wf(),
            build@.next_call().admits(reply),
        ensures
            final(self)@.same_buffers(old(self)@),
            final(self).wf(),
            r@ == build@.after(old(self)@.ledger, reply).1,
            final(self)@ == (ContextModel {
                ledger: build@.after(old(self)@.ledger, reply).0,
                ..old(self)@
            }),
            r matches BuildNext::Built(k) ==> k@.wf(),
    {
        proof {
            law_destroyed_objects_are_counted(self@.ledger, build@.stage.unwinding());
        }
        build.advance(&mut self.ledger, reply)
    }

    /// Hand out the queued commands, in order.
    pub fn take_orders(&mut self) -> (r: Vec<Order>)
        requires
            old(self).wf(),
        ensures
            final(self)@.same_buffers(old(self)@),
            r@ == old(self)@.ledger.orders,
            final(self).wf(),
            final(self)@ == (ContextModel {
                ledger: LedgerModel { orders: Seq::empty(), ..old(self)@.ledger },
                ..old(self)@
            }),
    {
        self.ledger.take_orders()
    }

    pub fn id(&self) -> (r: u64)
        ensures
            r == self@.fixed.id,
    {
        self.id
    }

    /// What the driver declared about the device.
    pub fn report(&self) -> (r: &DeviceReport)
        ensures
            *r == self@.fixed.report,
    {
        &self.report
    }

    pub fn queue_family(&self) -> (r: u32)
        ensures
            r == self@.fixed.queue_family,
    {
        self.queue_family
    }

    pub fn subgroup_size_control(&self) -> (r: bool)
        ensures
            r == self@.fixed.subgroup_size_control,
    {
        self.subgroup_size_control
    }

    /// Valid bits of the compute queue's timestamps.
    pub fn timestamp_valid_bits(&self) -> (r: u32)
        ensures
            r == self@.fixed.timestamp_valid_bits,
    {
        self.timestamp_valid_bits
    }

    pub fn limits(&self) -> (r: Limits)
        ensures
            r == self@.fixed.limits,
    {
        self.limits
    }

    /// Descriptor sets allocated per kernel and batch.
    pub fn sets_per_kernel_pool(&self) -> (r: u32)
        ensures
            r == self@.fixed.sets_per_kernel_pool,
    {
        self.sets_per_kernel_pool
    }

    /// Whether a failed wait left this context unusable.
    pub fn is_poisoned(&self) -> (r: bool)
        ensures
            r == !self@.ledger.usable(),
    {
        self.ledger.is_poisoned()
    }

    /// Objects left allocated on purpose because the context is poisoned.
    pub fn leaked_on_poison(&self) -> (r: u64)
        ensures
            r == self@.ledger.leaked,
    {
        self.ledger.leaked()
    }

    /// Submissions whose fence and command buffer were released.
    pub fn submissions_torn_down(&self) -> (r: u64)
        ensures
            r == self@.ledger.torn_down,
    {
        self.ledger.torn_down()
    }

    /// Objects created and not destroyed.
    pub fn live_objects(&self) -> (r: i64)
        ensures
            r == self@.ledger.live_objects,
    {
        self.ledger.live_objects()
    }

    /// Batches submitted and not yet finished: none or one.
    pub fn batches_in_flight(&self) -> (r: u32)
        ensures
            r == (if self@.in_flight is Some {
                1u32
            } else {
                0
            }),
    {
        if self.in_flight.is_some() {
            1
        } else {
            0
        }
    }

    /// Flushes so far, by reason.
    pub fn flushes_by_reason(&self) -> (r: [u64; 9])
        ensures
            r@ == self@.flushes,
    {
        self.flushes
    }

    /// Every flush of this context, whatever the reason.
    pub fn flushes(&self) -> (r: u64)
        ensures
            r == flush_total(self@.flushes, 9),
    {
        let mut sum: u64 = 0;
        let mut i: usize = 0;
        while i < 9
            invariant
                i <= 9,
                self.flushes@ == self@.flushes,
                sum == flush_total(self@.flushes, i as int),
            decreases 9 - i,
        {
            sum = sum.wrapping_add(self.flushes[i]);
            i += 1;
        }
        sum
    }

    /// Items recorded into the open batch and not yet submitted.
    pub fn recorded_items(&self) -> (r: u32)
        ensures
            r == (match self@.recorder {
                Some(rec) => rec.plan.items,
                None => 0,
            }),
    {
        match &self.recorder {
            Some(rec) => rec.plan.items(),
            None => 0,
        }
    }

    /// Barriers the rule demands for the open batch.
    pub fn recorded_barriers(&self) -> (r: u32)
        ensures
            r == (match self@.recorder {
                Some(rec) => rec.plan.barriers,
                None => 0,
            }),
    {
        match &self.recorder {
            Some(rec) => rec.plan.barriers(),
            None => 0,
        }
    }

    pub fn batch_ramp(&self) -> (r: bool)
        ensures
            r == self@.tuning.batch_ramp,
    {
        self.tuning.batch_ramp
    }

    pub fn set_batch_ramp(&mut self, on: bool)
        requires
            old(self).wf(),
        ensures
            final(self).wf(),
            final(self)@ == (ContextModel {
                tuning: Tuning { batch_ramp: on, ..old(self)@.tuning },
                ..old(self)@
            }),
    {
        self.tuning.batch_ramp = on;
    }

    /// Whether an upload is recorded into the batch.
    pub fn deferred_upload(&self) -> (r: bool)
        ensures
            r == self@.defers_uploads(),
    {
        self.tuning.deferred_upload && self.tuning.async_flush && !self.tuning.timestamps
    }

    pub fn set_deferred_upload(&mut self, on: bool)
        requires
            old(self).wf(),
        ensures
            final(self).wf(),
            final(self)@ == (ContextModel {
                tuning: Tuning { deferred_upload: on, ..old(self)@.tuning },
                ..old(self)@
            }),
    {
        self.tuning.deferred_upload = on;
    }

    pub fn max_recorded_items(&self) -> (r: u32)
        ensures
            r == self@.tuning.max_recorded_items,
    {
        self.tuning.max_recorded_items
    }

    /// Change the batch depth from the next batch on; no items counts as one.
    pub fn set_max_recorded_items(&mut self, items: u32)
        requires
            old(self).wf(),
        ensures
            final(self).wf(),
            final(self)@ == (ContextModel {
                tuning: Tuning {
                    max_recorded_items: if items == 0 {
                        1
                    } else {
                        items
                    },
                    ..old(self)@.tuning
                },
                ..old(self)@
            }),
    {
        self.tuning.max_recorded_items = if items == 0 {
            1
        } else {
            items
        };
    }

    pub fn max_retired_bytes(&self) -> (r: u64)
        ensures
            r == self@.tuning.max_retired_bytes,
    {
        self.tuning.max_retired_bytes
    }

    /// Change the retirement budget from the next batch on.
    pub fn set_max_retired_bytes(&mut self, bytes: u64)
        requires
            old(self).wf(),
        ensures
            final(self).wf(),
            final(self)@ == (ContextModel {
                tuning: Tuning { max_retired_bytes: bytes, ..old(self)@.tuning },
                ..old(self)@
            }),
    {
        self.tuning.max_retired_bytes = bytes;
    }

    /// Change the barrier rule from the next batch on.
    pub fn set_barrier_rule(&mut self, rule: BarrierRule)
        requires
            old(self).wf(),
        ensures
            final(self).wf(),
            final(self)@ == (ContextModel {
                tuning: Tuning { barrier_rule: rule, ..old(self)@.tuning },
                ..old(self)@
            }),
    {
        self.tuning.barrier_rule = rule;
    }

    /// Choose when a freed pair may be used again.
    pub fn set_pool_mode(&mut self, mode: PoolMode)
        requires
            old(self).wf(),
        ensures
            final(self).wf(),
            final(self)@ == (ContextModel {
                tuning: Tuning { pool_mode: mode, ..old(self)@.tuning },
                ..old(self)@
            }),
    {
        self.tuning.pool_mode = mode;
    }

    /// Choose whether the barriers that are due are recorded.
    pub fn set_barrier_mode(&mut self, mode: BarrierMode)
        requires
            old(self).wf(),
        ensures
            final(self).wf(),
            final(self)@ == (ContextModel {
                tuning: Tuning { barrier_mode: mode, ..old(self)@.tuning },
                ..old(self)@
            }),
    {
        self.tuning.barrier_mode = mode;
    }

    /// Choose whether dispatches share one descriptor set.
    pub fn set_descriptor_mode(&mut self, mode: DescriptorMode)
        requires
            old(self).wf(),
        ensures
            final(self).wf(),
            final(self)@ == (ContextModel {
                tuning: Tuning { descriptor_mode: mode, ..old(self)@.tuning },
                ..old(self)@
            }),
    {
        self.tuning.descriptor_mode = mode;
    }

    /// Turn the timestamp instrument on or off; refused while a batch is open,
    /// whose items would be stamped in part.
    pub fn set_dispatch_timestamps(&mut self, on: bool) -> (r: Result<(), AckError>)
        requires
            old(self).wf(),
        ensures
            final(self).wf(),
            match old(self)@.recorder {
                Some(rec) => {
                    &&& r is Err
                    &&& r->Err_0@ == Failure::Unsupported(
                        "the dispatch timestamp instrument cannot be switched to "@ + (if on {
                            "true"@
                        } else {
                            "false"@
                        }) + " with "@ + decimal_text(rec.plan.items as nat)
                            + " item(s) recorded and unsubmitted: the batch would be stamped in part and its span would cover a prefix"@,
                    )
                    &&& final(self)@ == old(self)@
                },
                None => r is Ok && final(self)@ == (ContextModel {
                    tuning: Tuning { timestamps: on, ..old(self)@.tuning },
                    ..old(self)@
                }),
            },
    {
        if self.recorder.is_some() {
            let mut s = String::from_str(
                "the dispatch timestamp instrument cannot be switched to ",
            );
            s.append(
                if on {
                    "true"
                } else {
                    "false"
                },
            );
            s.append(" with ");
            append_decimal(&mut s, self.recorded_items() as u64);
            s.append(
                " item(s) recorded and unsubmitted: the batch would be stamped in part and its span would cover a prefix",
            );
            return Err(AckError::Unsupported(s));
        }
        self.tuning.timestamps = on;
        Ok(())
    }

    /// What the dispatch instrument has counted and timed.
    pub fn dispatch_stats(&self) -> (r: DispatchStats)
        ensures
            r == (DispatchStats {
                items: self@.counts.items,
                commands: self@.counts.commands,
                barriers: self@.counts.barriers,
                flushes: flush_total(self@.flushes, 9),
                timed_flushes: self@.timing.flushes,
                timed_items: self@.timing.items,
                device_ns: self@.timing.span_ns,
                min_item_ns: if self@.timing.items == 0 {
                    0
                } else {
                    self@.timing.min_item_ns
                },
                max_item_ns: self@.timing.max_item_ns,
                unresolved_flushes: self@.timing.unresolved,
                timestamps_enabled: self@.tuning.timestamps,
            }),
    {
        DispatchStats {
            items: self.counts.items,
            commands: self.counts.commands,
            barriers: self.counts.barriers,
            flushes: self.flushes(),
            timed_flushes: self.timing.flushes,
            timed_items: self.timing.items,
            device_ns: self.timing.span_ns,
            min_item_ns: if self.timing.items == 0 {
                0
            } else {
                self.timing.min_item_ns
            },
            max_item_ns: self.timing.max_item_ns,
            unresolved_flushes: self.timing.unresolved,
            timestamps_enabled: self.tuning.timestamps,
        }
    }

    pub fn buffer_pool_enabled(&self) -> (r: bool)
        ensures
            r == self@.pool.enabled,
    {
        self.pool.enabled()
    }

    /// Turn the buffer pool on or off; turning it off drains it.
    pub fn set_buffer_pool_enabled(&mut self, on: bool)
        requires
            old(self).wf(),
        ensures
            final(self).wf(),
            final(self)@ == (if on {
                ContextModel {
                    pool: PoolModel { enabled: true, ..old(self)@.pool },
                    ..old(self)@
                }
            } else {
                ContextModel {
                    pool: PoolModel { enabled: false, ..old(self)@.pool.cleared() },
                    ledger: old(self)@.ledger.destroyed_all(
                        crate::pool::all_pair_orders(old(self)@.pool.pairs),
                    ),
                    ..old(self)@
                }
            }),
    {
        proof {
            law_destroyed_objects_are_counted(
                self@.ledger,
                crate::pool::all_pair_orders(self@.pool.pairs),
            );
        }
        self.pool.set_enabled(&mut self.ledger, on);
        proof {
            self.pool.lemma_wf();
        }
    }

    /// Set the pool's ceiling and bring the pool inside it.
    pub fn set_buffer_pool_max_bytes(&mut self, bytes: u64)
        requires
            old(self).wf(),
        ensures
            final(self).wf(),
            ({
                let p = PoolModel { max_bytes: bytes, ..old(self)@.pool };
                final(self)@ == (ContextModel {
                    pool: p.evicted_to(p.kept(p.pairs.len())),
                    ledger: old(self)@.ledger.destroyed_all(
                        crate::pool::evict_orders(p.pairs, p.kept(p.pairs.len())),
                    ),
                    ..old(self)@
                })
            }),
            crate::pool::held(final(self)@.pool.pairs) <= bytes,
    {
        proof {
            let p = PoolModel { max_bytes: bytes, ..self@.pool };
            law_destroyed_objects_are_counted(
                self@.ledger,
                crate::pool::evict_orders(p.pairs, p.kept(p.pairs.len())),
            );
        }
        self.pool.set_max_bytes(&mut self.ledger, bytes);
        proof {
            self.pool.lemma_wf();
        }
    }

    /// What the buffer pool has done.
    pub fn pool_stats(&self) -> (r: PoolStats)
        requires
            self.wf(),
        ensures
            r == (PoolStats {
                hits: self@.pool.hits,
                misses: self@.pool.misses,
                returns: self@.pool.returns,
                declined: self@.pool.declined,
                drained: self@.pool.drained,
                reclaims: self@.pool.reclaims,
                held_objects: (2 * self@.pool.pairs.len()) as i64,
                held_bytes: crate::pool::held(self@.pool.pairs) as u64,
            }),
    {
        self.pool.stats()
    }

    /// Driver objects the pool holds, two for each pair.
    pub fn pooled_objects(&self) -> (r: i64)
        requires
            self.wf(),
        ensures
            r == 2 * self@.pool.pairs.len(),
    {
        self.pool.pooled_objects()
    }

    /// Whether a sequence number is left for another item.
    pub fn has_sequence_left(&self) -> (r: bool)
        ensures
            r == (self@.next_item_seq < u64::MAX),
    {
        self.next_item_seq < u64::MAX
    }

    /// Whether an id is left for another buffer.
    pub fn has_id_left(&self) -> (r: bool)
        ensures
            r == (self@.next_buffer < u64::MAX),
    {
        self.next_buffer < u64::MAX
    }
}

/// The sum of the first `n` flush counters.
pub open spec fn flush_total(flushes: Seq<u64>, n: int) -> u64
    decreases n,
{
    if n <= 0 {
        0
    } else {
        flush_total(flushes, n - 1).wrapping_add(flushes[n - 1])
    }
}

/// Each tuning is read from its own variable; without any, flushes that promise
/// nothing are asynchronous, batches ramp up to 128 items and 2^30 retired
/// bytes, and neither uploads are deferred nor dispatches stamped.
pub proof fn law_tunings_are_read_from_their_variables(t: TuningTexts)
    ensures
        t.tuning().async_flush == flag_of(text_of(t.async_flush), true),
        t.tuning().batch_ramp == flag_of(text_of(t.batch_ramp), true),
        t.tuning().deferred_upload == flag_of(text_of(t.deferred_upload), false),
        t.tuning().timestamps == flag_of(text_of(t.dispatch_timestamps), false),
        t.max_recorded_items is None ==> t.tuning().max_recorded_items == 128,
        budget(text_of(t.max_recorded_items), 4294967295) matches Some(n)
            ==> t.tuning().max_recorded_items == n as u32,
        t.max_retired_bytes is None ==> t.tuning().max_retired_bytes == 1073741824,
        budget(text_of(t.max_retired_bytes), 18446744073709551615) matches Some(n)
            ==> t.tuning().max_retired_bytes == n as u64,
        t.tuning().barrier_rule is Always <==> text_of(t.barriers) == Some("always"@),
        t.tuning().pool_mode is Retired,
        t.tuning().barrier_mode is All,
        t.tuning().descriptor_mode is Arena,
{
}

/// A size is rounded up to whole words: the least multiple of four that holds
/// it.
pub proof fn law_sizes_are_rounded_up_to_words(bytes: int)
    ensures
        whole_words(bytes) % 4 == 0,
        bytes <= whole_words(bytes) < bytes + 4,
        bytes % 4 == 0 ==> whole_words(bytes) == bytes,
{
}

/// A bound kernel names its buffers' ids and handles slot for slot, and is the
/// same kernel otherwise.
pub proof fn law_binding_names_the_buffers(k: KernelModel, buffers: Seq<BufferModel>, i: int)
    requires
        0 <= i < buffers.len(),
    ensures
        bound_to(k, buffers).bound.len() == buffers.len(),
        bound_to(k, buffers).pending.len() == buffers.len(),
        bound_to(k, buffers).bound[i] == buffers[i].id,
        bound_to(k, buffers).pending[i].buffer == buffers[i].buffer,
        bound_to(k, buffers).pending[i].bytes == buffers[i].bytes,
        bound_to(k, buffers) == (KernelModel {
            bound: bound_to(k, buffers).bound,
            pending: bound_to(k, buffers).pending,
            ..k
        }),
{
}

/// A batch takes the descriptor bank that the batch in flight does not use.
pub proof fn law_open_bank_is_not_in_flight(m: ContextModel)
    requires
        m.wf(),
    ensures
        m.open_bank() <= 1,
        m.in_flight matches Some(s) ==> m.open_bank() != s.bank,
        m.quiet() ==> m.open_bank() == 0,
{
}

/// Only a batch that is full, or a kernel without a free set, is flushed without
/// seeing the batch complete; and neither where flushes are synchronous or
/// dispatches are stamped.
pub proof fn law_flushes_complete_unless_pressed(m: ContextModel, reason: FlushReason)
    ensures
        !m.completes(reason) <==> m.tuning.async_flush && !m.tuning.timestamps && (reason
            == FlushReason::BatchFull || reason == FlushReason::DescriptorsExhausted),
        m.defers_uploads() <==> m.tuning.deferred_upload && m.tuning.async_flush
            && !m.tuning.timestamps,
{
}

/// A ramped batch takes sixteen items times two to the power of the batches
/// submitted before it, sixteen at most of them, and never more than the budget;
/// an unramped one takes the budget.
pub proof fn law_batch_depth_doubles(m: ContextModel)
    requires
        m.ramp <= 16,
    ensures
        !m.tuning.batch_ramp || !m.tuning.async_flush || m.tuning.timestamps ==> m.batch_depth()
            == m.tuning.max_recorded_items,
        m.tuning.batch_ramp && m.tuning.async_flush && !m.tuning.timestamps ==> m.batch_depth() == (
        if 16 * pow2(m.ramp as nat) < m.tuning.max_recorded_items {
            16 * pow2(m.ramp as nat)
        } else {
            m.tuning.max_recorded_items as nat
        }),
{
}

/// A buffer is accepted exactly where this context made it and has not destroyed
/// it; the refusal tells which, and names both contexts or the buffer.
pub proof fn law_buffers_are_accepted_while_they_live(m: ContextModel, b: BufferModel)
    ensures
        m.buffer_refusal(b) is None <==> b.ctx_id == m.fixed.id && m.live.contains(b.id),
        b.ctx_id != m.fixed.id ==> m.buffer_refusal(b) == Some(
            Failure::Foreign(
                "buffer "@ + decimal_text(b.id as nat) + " belongs to context "@ + decimal_text(
                    b.ctx_id as nat,
                ) + ", not context "@ + decimal_text(m.fixed.id as nat),
            ),
        ),
        b.ctx_id == m.fixed.id && !m.live.contains(b.id) ==> m.buffer_refusal(b) == Some(
            Failure::Freed(
                "buffer "@ + decimal_text(b.id as nat) + " of context "@ + decimal_text(
                    m.fixed.id as nat,
                ) + " was destroyed"@,
            ),
        ),
{
}

/// A kernel is accepted exactly where this context built it.
pub proof fn law_kernels_are_accepted_by_their_context(m: ContextModel, k: KernelModel)
    ensures
        m.kernel_refusal(k) is None <==> k.ctx_id == m.fixed.id,
        k.ctx_id != m.fixed.id ==> m.kernel_refusal(k) == Some(
            Failure::Foreign(
                "kernel belongs to context "@ + decimal_text(k.ctx_id as nat) + ", not context "@
                    + decimal_text(m.fixed.id as nat),
            ),
        ),
{
}

proof fn lemma_buffers_refusal(m: ContextModel, buffers: Seq<BufferModel>, from: int)
    requires
        0 <= from,
    ensures
        m.buffers_refusal(buffers, from) is None <==> forall|i: int|
            from <= i < buffers.len() ==> (#[trigger] buffers[i]).ctx_id == m.fixed.id
                && m.live.contains(buffers[i].id),
    decreases buffers.len() - from,
{
    if from < buffers.len() {
        lemma_buffers_refusal(m, buffers, from + 1);
        let b = buffers[from];
        assert(m.buffer_refusal(b) is None <==> b.ctx_id == m.fixed.id && m.live.contains(b.id));
    }
}

/// A binding is accepted exactly where the context is usable, it built the
/// kernel, and the buffers are its own, live, and as many as the kernel expects.
pub proof fn law_bindings_are_accepted_exactly_when_whole(
    m: ContextModel,
    k: KernelModel,
    buffers: Seq<BufferModel>,
)
    ensures
        m.bind_refusal(k, buffers) is None <==> {
            &&& m.ledger.poisoned is None
            &&& k.ctx_id == m.fixed.id
            &&& buffers.len() == k.storage_buffers
            &&& forall|i: int|
                0 <= i < buffers.len() ==> (#[trigger] buffers[i]).ctx_id == m.fixed.id
                    && m.live.contains(buffers[i].id)
        },
        m.ledger.poisoned matches Some(why) ==> m.bind_refusal(k, buffers) == Some(
            Failure::Poisoned(why),
        ),
{
    lemma_buffers_refusal(m, buffers, 0);
}

proof fn lemma_first_dead_exactly(bound: Seq<u64>, live: Set<u64>, from: int)
    requires
        0 <= from,
    ensures
        match first_dead(bound, live, from) {
            Some(i) => from <= i < bound.len() && !live.contains(bound[i]) && forall|j: int|
                from <= j < i ==> live.contains(#[trigger] bound[j]),
            None => forall|j: int| from <= j < bound.len() ==> live.contains(#[trigger] bound[j]),
        },
    decreases bound.len() - from,
{
    if from < bound.len() && live.contains(bound[from]) {
        lemma_first_dead_exactly(bound, live, from + 1);
    }
}

proof fn lemma_first_bad_axis(groups: Seq<u32>, max: Seq<u32>, from: int)
    requires
        0 <= from,
    ensures
        match first_bad_axis(groups, max, from) {
            Some(i) => from <= i < groups.len() && !(1 <= groups[i] <= max[i]) && forall|j: int|
                from <= j < i ==> 1 <= (#[trigger] groups[j]) <= max[j],
            None => forall|j: int|
                from <= j < groups.len() ==> 1 <= (#[trigger] groups[j]) <= max[j],
        },
    decreases groups.len() - from,
{
    if from < groups.len() && 1 <= groups[from] <= max[from] {
        lemma_first_bad_axis(groups, max, from + 1);
    }
}

/// A dispatch is accepted exactly where the context is usable and built the
/// kernel, the kernel is bound to live buffers where it has any, its constants
/// are whole words that fit its range, and it launches at least once on a grid
/// that the device admits on every axis.
pub proof fn law_dispatches_are_accepted_exactly_when_valid(
    m: ContextModel,
    k: KernelModel,
    push: nat,
    groups: Seq<u32>,
    repeats: u32,
    what: Seq<char>,
)
    ensures
        m.dispatch_refusal(k, push, groups, repeats, what) is None <==> {
            &&& m.ledger.poisoned is None
            &&& k.ctx_id == m.fixed.id
            &&& k.storage_buffers == 0 || k.bound.len() > 0
            &&& forall|i: int| 0 <= i < k.bound.len() ==> m.live.contains(#[trigger] k.bound[i])
            &&& push % 4 == 0
            &&& push <= k.push_bytes
            &&& repeats >= 1
            &&& forall|i: int|
                0 <= i < groups.len() ==> 1 <= (#[trigger] groups[i])
                    <= m.fixed.limits.max_workgroup_count@[i]
        },
{
    lemma_first_dead_exactly(k.bound, m.live, 0);
    lemma_first_bad_axis(groups, m.fixed.limits.max_workgroup_count@, 0);
}

/// A dispatch on too large a grid is refused for the first axis that is, and one
/// that is bound to a dead buffer for the first such buffer.
pub proof fn law_refused_dispatch_names_the_first_fault(
    m: ContextModel,
    k: KernelModel,
    push: nat,
    groups: Seq<u32>,
    repeats: u32,
    what: Seq<char>,
    i: int,
)
    requires
        m.ledger.poisoned is None,
        k.ctx_id == m.fixed.id,
        k.bound.len() > 0,
    ensures
        0 <= i < k.bound.len() && !m.live.contains(k.bound[i]) && (forall|j: int|
            0 <= j < i ==> m.live.contains(#[trigger] k.bound[j])) ==> m.dispatch_refusal(
            k,
            push,
            groups,
            repeats,
            what,
        ) == Some(
            Failure::Freed(
                "buffer "@ + decimal_text(k.bound[i] as nat)
                    + " bound to the kernel was destroyed before dispatch"@,
            ),
        ),
        (forall|j: int| 0 <= j < k.bound.len() ==> m.live.contains(#[trigger] k.bound[j])) && push
            % 4 == 0 && push <= k.push_bytes && repeats == 0 ==> m.dispatch_refusal(
            k,
            push,
            groups,
            repeats,
            what,
        ) == Some(Failure::Unsupported(what + " needs at least one repeat"@)),
        (forall|j: int| 0 <= j < k.bound.len() ==> m.live.contains(#[trigger] k.bound[j])) && push
            % 4 == 0 && push <= k.push_bytes && repeats > 0 && 0 <= i < groups.len() && !(1
            <= groups[i] <= m.fixed.limits.max_workgroup_count@[i]) && (forall|j: int|
            0 <= j < i ==> 1 <= (#[trigger] groups[j])
                <= m.fixed.limits.max_workgroup_count@[j]) ==> m.dispatch_refusal(
            k,
            push,
            groups,
            repeats,
            what,
        ) == Some(
            Failure::Unsupported(
                "workgroup count "@ + decimal_text(groups[i] as nat) + " on axis "@ + decimal_text(
                    i as nat,
                ) + " is outside [1, "@ + decimal_text(
                    m.fixed.limits.max_workgroup_count@[i] as nat,
                ) + "]"@,
            ),
        ),
{
    lemma_first_dead_exactly(k.bound, m.live, 0);
    lemma_first_bad_axis(groups, m.fixed.limits.max_workgroup_count@, 0);
    if let Some(d) = first_dead(k.bound, m.live, 0) {
        assert(!m.live.contains(k.bound[d]));
    }
    if let Some(a) = first_bad_axis(groups, m.fixed.limits.max_workgroup_count@, 0) {
        assert(!(1 <= groups[a] <= m.fixed.limits.max_workgroup_count@[a]));
    }
}

/// A kernel is built exactly where the context is usable, its push range is
/// whole words within a limit of a word at least, and the device controls the
/// subgroup size where one is asked for.
pub proof fn law_builds_are_accepted_exactly_when_possible(
    m: ContextModel,
    push_bytes: u32,
    subgroup: Option<u32>,
)
    ensures
        m.build_refusal(push_bytes, subgroup) is None <==> {
            &&& m.ledger.poisoned is None
            &&& push_bytes % 4 == 0
            &&& push_bytes <= m.fixed.limits.max_push_constant_bytes
            &&& m.fixed.limits.max_push_constant_bytes >= 4
            &&& subgroup is Some ==> m.fixed.subgroup_size_control
        },
{
}

/// A kernel is built to its buffers and subgroup size, with a word of push range
/// and one set at least, for the context that builds it.
pub proof fn law_kernel_plan_is_the_request(
    m: ContextModel,
    storage_buffers: u32,
    push_bytes: u32,
    subgroup: Option<u32>,
)
    ensures
        ({
            let p = m.kernel_plan(storage_buffers, push_bytes, subgroup);
            &&& p.storage_buffers == storage_buffers
            &&& p.subgroup == subgroup
            &&& p.ctx_id == m.fixed.id
            &&& push_bytes >= 4 ==> p.push_bytes == push_bytes
            &&& push_bytes < 4 ==> p.push_bytes == 4
            &&& m.fixed.sets_per_kernel_pool >= 1 ==> p.arena == m.fixed.sets_per_kernel_pool
            &&& m.fixed.sets_per_kernel_pool == 0 ==> p.arena == 1
        }),
{
}

/// A row of destroyed kernels gives up four objects each, and a row of staging
/// pairs two each, in the order of the row.
pub proof fn law_released_rows_destroy_each_object(
    kernels: Seq<RetiredKernel>,
    staging: Seq<Staging>,
    i: int,
)
    ensures
        kernel_rows(kernels).len() == 4 * kernels.len(),
        0 <= i < kernels.len() ==> {
            &&& kernel_rows(kernels)[4 * i] == Order::DestroyDescriptorPool(kernels[i].pool)
            &&& kernel_rows(kernels)[4 * i + 1] == Order::DestroyPipeline(kernels[i].pipeline)
            &&& kernel_rows(kernels)[4 * i + 2] == Order::DestroyPipelineLayout(kernels[i].layout)
            &&& kernel_rows(kernels)[4 * i + 3] == Order::DestroySetLayout(kernels[i].dsl)
        },
        staging_rows(staging).len() == 2 * staging.len(),
        0 <= i < staging.len() ==> {
            &&& staging_rows(staging)[2 * i] == Order::DestroyBuffer(staging[i].buffer)
            &&& staging_rows(staging)[2 * i + 1] == Order::FreeMemory(staging[i].memory)
        },
{
    lemma_kernel_rows(kernels, i);
    lemma_staging_rows(staging, i);
}

proof fn lemma_kernel_rows(kernels: Seq<RetiredKernel>, i: int)
    ensures
        kernel_rows(kernels).len() == 4 * kernels.len(),
        0 <= i < kernels.len() ==> {
            &&& kernel_rows(kernels)[4 * i] == Order::DestroyDescriptorPool(kernels[i].pool)
            &&& kernel_rows(kernels)[4 * i + 1] == Order::DestroyPipeline(kernels[i].pipeline)
            &&& kernel_rows(kernels)[4 * i + 2] == Order::DestroyPipelineLayout(kernels[i].layout)
            &&& kernel_rows(kernels)[4 * i + 3] == Order::DestroySetLayout(kernels[i].dsl)
        },
    decreases kernels.len(),
{
    if kernels.len() > 0 {
        lemma_kernel_rows(kernels.drop_last(), i);
    }
}

proof fn lemma_staging_rows(staging: Seq<Staging>, i: int)
    ensures
        staging_rows(staging).len() == 2 * staging.len(),
        0 <= i < staging.len() ==> {
            &&& staging_rows(staging)[2 * i] == Order::DestroyBuffer(staging[i].buffer)
            &&& staging_rows(staging)[2 * i + 1] == Order::FreeMemory(staging[i].memory)
        },
    decreases staging.len(),
{
    if staging.len() > 0 {
        lemma_staging_rows(staging.drop_last(), i);
    }
}

/// A batch's retired pairs go back to the pool, or are destroyed where it does
/// not take them; its kernels and staging pairs are destroyed. Where the device
/// state is unknown all of them stay allocated and are counted: two objects for
/// each pair and four for each kernel.
pub proof fn law_released_batch_is_pooled_destroyed_or_leaked(
    l: LedgerModel,
    p: PoolModel,
    retired: Seq<Pair>,
    kernels: Seq<RetiredKernel>,
    staging: Seq<Staging>,
)
    requires
        l.leaked + 2 * retired.len() + 4 * kernels.len() + 2 * staging.len() <= u64::MAX,
    ensures
        l.poisoned is Some && !l.lost ==> {
            &&& retired_pool(l, p, retired) == p
            &&& retired_ledger(l, p, retired, kernels).orders == l.orders
            &&& retired_ledger(l, p, retired, kernels).leaked == l.leaked + 2 * retired.len() + 4
                * kernels.len()
            &&& staged_ledger(l, staging).orders == l.orders
            &&& staged_ledger(l, staging).leaked == l.leaked + 2 * staging.len()
        },
        l.poisoned is None || l.lost ==> {
            &&& retired_pool(l, p, retired) == p.recycled_all(retired)
            &&& retired_ledger(l, p, retired, kernels).orders == l.orders + p.declined_orders(
                retired,
            ) + kernel_rows(kernels)
            &&& retired_ledger(l, p, retired, kernels).leaked == l.leaked
            &&& staged_ledger(l, staging).orders == l.orders + staging_rows(staging)
            &&& staged_ledger(l, staging).leaked == l.leaked
        },
{
    law_leaked_objects_are_counted(l, 2 * retired.len() + 4 * kernels.len());
    law_leaked_objects_are_counted(l, 2 * staging.len());
    law_destroyed_objects_are_counted(l, p.declined_orders(retired));
    law_destroyed_objects_are_counted(
        l.destroyed_all(p.declined_orders(retired)),
        kernel_rows(kernels),
    );
    law_destroyed_objects_are_counted(l, staging_rows(staging));
}

/// Without a tuning the pool may hold half of the device's memory, and 64 MiB
/// where that is less.
pub proof fn law_default_ceiling_is_half_the_memory(bytes: u64)
    ensures
        bytes >= 2 * 67108864 ==> default_pool_bytes(bytes) == bytes / 2,
        bytes < 2 * 67108864 ==> default_pool_bytes(bytes) == 67108864,
{
}

/// A context opens with nothing recorded, pooled or counted; its limits are the
/// device's and its tunings those of the texts.
pub proof fn law_fresh_context_has_done_nothing(plan: OpenPlan, texts: TuningTexts, id: u64, i: int)
    requires
        0 <= i < 9,
    ensures
        ({
            let m = fresh_context(plan, texts, id);
            &&& m.fixed.id == id
            &&& m.fixed.report == plan.report
            &&& m.fixed.queue_family == plan.queue_family
            &&& m.fixed.subgroup_size_control == plan.enabled.subgroup_size_control
            &&& m.fixed.timestamp_valid_bits == plan.timestamp_valid_bits
            &&& m.fixed.limits == plan.limits
            &&& m.fixed.memory_types == plan.memory_types@
            &&& texts.sets_per_kernel_pool is None ==> m.fixed.sets_per_kernel_pool == 512
            &&& m.tuning == texts.tuning()
            &&& m.live.is_empty() && m.next_buffer == 1
            &&& m.quiet()
            &&& m.ledger.usable() && !m.ledger.lost && m.ledger.orders.len() == 0
            &&& m.ledger.live_objects == 0 && m.ledger.leaked == 0 && m.ledger.torn_down == 0
            &&& m.pool.pairs.len() == 0
            &&& texts.buffer_pool_bytes is None ==> m.pool.max_bytes == default_pool_bytes(
                plan.report.device_local_bytes,
            )
            &&& m.pool.enabled == flag_of(text_of(texts.buffer_pool), true)
            &&& m.pool.hits == 0 && m.pool.misses == 0 && m.pool.returns == 0
            &&& m.pool.declined == 0 && m.pool.drained == 0 && m.pool.reclaims == 0
            &&& m.flushes.len() == 9 && m.flushes[i] == 0
            &&& m.batch_gen == 1 && m.bank == 0 && m.ramp == 0 && m.next_item_seq == 0
            &&& m.counts.items == 0 && m.counts.commands == 0 && m.counts.barriers == 0
            &&& m.timing.flushes == 0 && m.timing.items == 0 && m.timing.span_ns == 0
            &&& m.timing.min_item_ns == u64::MAX && m.timing.max_item_ns == 0
            &&& m.timing.unresolved == 0
            &&& m.queries is None && m.query_capacity == 0
        }),
{
    assert(fresh_context(plan, texts, id).live =~= Set::empty());
}

/// The flushes in all are those of every reason together.
pub proof fn law_flushes_add_up(flushes: Seq<u64>, n: int)
    requires
        0 <= n <= flushes.len(),
        forall|i: int| 0 <= i < flushes.len() ==> (#[trigger] flushes[i]) as int * n <= u64::MAX,
    ensures
        flush_total(flushes, n) == flushes.take(n).map(|i: int, x: u64| x as int).fold_left(
            0int,
            |a: int, b: int| a + b,
        ),
{
    lemma_flushes_add_up(flushes, n, n);
}

proof fn lemma_flushes_add_up(flushes: Seq<u64>, n: int, m: int)
    requires
        0 <= n <= m,
        n <= flushes.len(),
        forall|i: int| 0 <= i < flushes.len() ==> (#[trigger] flushes[i]) as int * m <= u64::MAX,
    ensures
        flush_total(flushes, n) == flushes.take(n).map(|i: int, x: u64| x as int).fold_left(
            0int,
            |a: int, b: int| a + b,
        ),
        flush_total(flushes, n) * m <= n * u64::MAX,
    decreases n,
{
    let add_up = |a: int, b: int| a + b;
    let row = flushes.take(n).map(|i: int, x: u64| x as int);
    reveal(Seq::fold_left);
    if n > 0 {
        lemma_flushes_add_up(flushes, n - 1, m);
        let rest = flushes.take(n - 1).map(|i: int, x: u64| x as int);
        assert(row.drop_last() =~= rest);
        assert(row.last() == flushes[n - 1]);
        let t = flush_total(flushes, n - 1) as int;
        let x = flushes[n - 1] as int;
        assert(x * m <= u64::MAX);
        assert((t + x) * m <= n * u64::MAX) by (nonlinear_arith)
            requires
                t * m <= (n - 1) * u64::MAX,
                x * m <= u64::MAX,
        ;
        assert(t + x <= u64::MAX) by (nonlinear_arith)
            requires
                (t + x) * m <= n * u64::MAX,
                0 < n <= m,
                t + x >= 0,
        ;
    }
}

} // verus!
