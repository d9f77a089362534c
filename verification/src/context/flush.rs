//! The flush of the recorded batch: it is submitted, the batch before it is seen
//! through, and then it is waited for, or left in flight where its reason
//! promises nothing.
//!
//! A failure before the submission succeeds loses the batch and poisons the
//! context: every item of it was already reported as accepted. A failed wait
//! quiesces the device; an idle device releases what the batch held and keeps
//! the context, a lost one releases it and poisons the context, and anything
//! else leaves it allocated, counts it, and poisons the context.

use super::{
    all_words, kernel_rows, law_released_batch_is_pooled_destroyed_or_leaked,
    lemma_release_keeps_state, release_retired, release_staging, retired_ledger, retired_pool,
    staged_ledger, staging_rows, Context, ContextModel, Recorder, RecorderModel, Submitted,
    SubmittedModel, TimingCounts,
};
use crate::batch::{flush_reason_index, FlushReason};
use crate::driver::{Call, Reply};
use crate::error::{
    outcome, outcome_text, result_name, result_text, AckError, Failure, ERROR_DEVICE_LOST,
    ERROR_OUT_OF_DEVICE_MEMORY, ERROR_OUT_OF_HOST_MEMORY,
};
use crate::ledger::{law_destroyed_objects_are_counted, law_leaked_objects_are_counted, Order};
use crate::one_shot::{failure_of, is_loss};
use vstd::prelude::*;
use vstd::string::*;

verus! {

/// A recorded batch on its way to the queue.
#[derive(Debug)]
pub struct Taken {
    batch: Recorder,
    what: String,
    completes: bool,
}

pub ghost struct TakenModel {
    pub batch: RecorderModel,
    pub what: Seq<char>,
    /// The flush sees this batch complete before it returns.
    pub completes: bool,
}

impl View for Taken {
    type V = TakenModel;

    closed spec fn view(&self) -> TakenModel {
        TakenModel { batch: self.batch@, what: self.what@, completes: self.completes }
    }
}

/// What follows once a batch is finished.
#[derive(Debug)]
pub enum Then {
    /// Nothing: it was the flush's own batch.
    Return,
    /// The next batch is short again: a completing flush found nothing recorded.
    ClearRamp,
    /// The flush's own batch takes its place.
    Own(Submitted, bool),
}

pub ghost enum ThenModel {
    Return,
    ClearRamp,
    Own(SubmittedModel, bool),
}

impl View for Then {
    type V = ThenModel;

    open spec fn view(&self) -> ThenModel {
        match self {
            Then::Return => ThenModel::Return,
            Then::ClearRamp => ThenModel::ClearRamp,
            Then::Own(s, completes) => ThenModel::Own(s@, *completes),
        }
    }
}

/// A flush in progress.
#[derive(Debug)]
pub enum Flush {
    End(Taken),
    Reset(Taken),
    Submit(Taken),
    Wait(Submitted, Then),
    /// The wait failed with this code.
    Idle(Submitted, Then, i32),
    Stamps(Submitted, Then, u64),
}

pub ghost enum FlushModel {
    End(TakenModel),
    Reset(TakenModel),
    Submit(TakenModel),
    Wait(SubmittedModel, ThenModel),
    Idle(SubmittedModel, ThenModel, i32),
    Stamps(SubmittedModel, ThenModel, u64),
}

impl View for Flush {
    type V = FlushModel;

    open spec fn view(&self) -> FlushModel {
        match self {
            Flush::End(t) => FlushModel::End(t@),
            Flush::Reset(t) => FlushModel::Reset(t@),
            Flush::Submit(t) => FlushModel::Submit(t@),
            Flush::Wait(s, then) => FlushModel::Wait(s@, then@),
            Flush::Idle(s, then, wait) => FlushModel::Idle(s@, then@, *wait),
            Flush::Stamps(s, then, pool) => FlushModel::Stamps(s@, then@, *pool),
        }
    }
}

/// Where a flush stands.
#[derive(Debug)]
pub enum FlushNext {
    Pending(Flush),
    Finished,
    Refused(AckError),
}

pub ghost enum FlushOutcome {
    Pending(FlushModel),
    Finished,
    Refused(Failure),
}

impl View for FlushNext {
    type V = FlushOutcome;

    open spec fn view(&self) -> FlushOutcome {
        match self {
            FlushNext::Pending(f) => FlushOutcome::Pending(f@),
            FlushNext::Finished => FlushOutcome::Finished,
            FlushNext::Refused(e) => FlushOutcome::Refused(e@),
        }
    }
}

pub open spec fn batch_lost_text(what: Seq<char>, wait: i32, idle: Option<i32>) -> Seq<char> {
    "device lost after a failed fence wait on the deferred batch ("@ + what + ") (wait "@
        + result_name(wait) + ", idle "@ + outcome_text(idle) + "); nothing runs on it again"@
}

pub open spec fn batch_unknown_text(what: Seq<char>, wait: i32, idle: i32) -> Seq<char> {
    "the flush of the deferred batch ("@ + what + ") failed its fence wait ("@ + result_name(wait)
        + ") and the device could not be quiesced ("@ + result_name(idle)
        + "): EVERY operation in the batch is of unknown completion, none is known to have run and none is known not to have run; the batch's fence, command buffer and retired objects stay allocated, and this context refuses every later call"@
}

pub open spec fn submission_lost_text(what: Seq<char>, step: Seq<char>) -> Seq<char> {
    "device lost at "@ + step + " of the deferred batch ("@ + what
        + "); whether any of its operations ran is unknown, and nothing runs on this device again"@
}

/// What is known of a batch whose submission failed: that nothing ran only where
/// the driver guarantees that the queue was not affected.
pub open spec fn ran_text(code: i32) -> Seq<char> {
    if code == ERROR_OUT_OF_HOST_MEMORY || code == ERROR_OUT_OF_DEVICE_MEMORY {
        "nothing was submitted, so none of its operations ran"@
    } else {
        "whether any of its operations ran is UNKNOWN: this result is outside the set for which the submission is guaranteed to have left the queue unaffected"@
    }
}

pub open spec fn submission_failed_text(what: Seq<char>, step: Seq<char>, code: i32) -> Seq<char> {
    "flush ("@ + what + ") failed at "@ + step + ": "@ + result_name(code) + "; "@ + ran_text(code)
        + ". Every operation in this batch was already reported accepted and none of them can now run, so this context is poisoned and refuses every later call"@
}

impl FlushModel {
    pub open spec fn next_call(self) -> Call {
        match self {
            FlushModel::End(t) => Call::End { commands: t.batch.commands },
            FlushModel::Reset(t) => Call::ResetFence { fence: t.batch.fence },
            FlushModel::Submit(t) => Call::Submit {
                commands: t.batch.commands,
                fence: t.batch.fence,
            },
            FlushModel::Wait(s, _) => Call::WaitFence { fence: s.fence },
            FlushModel::Idle(..) => Call::WaitIdle,
            FlushModel::Stamps(s, _, pool) => Call::ReadStamps { pool, count: s.stamps },
        }
    }

    /// What a flush holds is consistent.
    pub open spec fn wf(self) -> bool {
        match self {
            FlushModel::End(t) | FlushModel::Reset(t) | FlushModel::Submit(t) => all_words(
                t.batch.retired,
            ),
            FlushModel::Wait(s, then)
            | FlushModel::Idle(s, then, _)
            | FlushModel::Stamps(s, then, _) => {
                &&& all_words(s.retired)
                &&& self is Stamps ==> s.stamps > 1
                &&& match then {
                    ThenModel::Own(own, _) => all_words(own.retired) && own.bank <= 1,
                    _ => true,
                }
            },
        }
    }

    /// A flush in progress stands in for what it took: nothing else is recorded,
    /// and while it finishes a batch nothing else is in flight.
    pub open spec fn held_by(self, m: ContextModel) -> bool {
        &&& self.wf()
        &&& m.recorder is None
        &&& m.ledger.usable()
        &&& match self {
            FlushModel::End(_) | FlushModel::Reset(_) | FlushModel::Submit(_) => true,
            _ => m.in_flight is None,
        }
    }

    /// The flush returns only once nothing is recorded and nothing is in flight.
    pub open spec fn promises_quiet(self) -> bool {
        match self {
            FlushModel::End(t) | FlushModel::Reset(t) | FlushModel::Submit(t) => t.completes,
            FlushModel::Wait(_, then)
            | FlushModel::Idle(_, then, _)
            | FlushModel::Stamps(_, then, _) => match then {
                ThenModel::Own(_, completes) => completes,
                _ => true,
            },
        }
    }
}

/// A submitted batch, from what was recorded.
pub open spec fn submitted(t: TakenModel, bank: u32) -> SubmittedModel {
    SubmittedModel {
        commands: t.batch.commands,
        fence: t.batch.fence,
        what: t.what,
        retired: t.batch.retired,
        kernels: t.batch.kernels,
        stamps: t.batch.stamps,
        overflow: t.batch.overflow,
        bank,
        staging: t.batch.staging,
    }
}

impl ContextModel {
    /// The context once it released what a finished batch held, or left it
    /// allocated and counted it where the device state is unknown.
    pub open spec fn discharged(self, s: SubmittedModel) -> ContextModel {
        let l = staged_ledger(
            retired_ledger(self.ledger, self.pool, s.retired, s.kernels),
            s.staging,
        );
        ContextModel {
            pool: retired_pool(self.ledger, self.pool, s.retired),
            ledger: if self.ledger.unknown() {
                l.leaked(2)
            } else {
                l.torn_down(s.fence, s.commands)
            },
            ..self
        }
    }

    pub open spec fn poisoned_by(self, why: Seq<char>, lost: bool) -> ContextModel {
        ContextModel { ledger: self.ledger.poisoned_by(why, lost), ..self }
    }

    /// The context and the flush once the flush's own batch is submitted and
    /// the batch before it is finished.
    pub open spec fn settled(self, own: SubmittedModel, completes: bool) -> (
        ContextModel,
        FlushOutcome,
    ) {
        if completes {
            (
                ContextModel { ramp: 0, ..self },
                FlushOutcome::Pending(FlushModel::Wait(own, ThenModel::Return)),
            )
        } else {
            (
                ContextModel {
                    in_flight: Some(own),
                    ramp: self.ramp.saturating_add(1),
                    ..self
                },
                FlushOutcome::Finished,
            )
        }
    }

    /// The context and the flush once a batch was waited for and its stamps read.
    pub open spec fn finished(self, s: SubmittedModel, then: ThenModel) -> (
        ContextModel,
        FlushOutcome,
    ) {
        let m = self.discharged(s);
        match then {
            ThenModel::Return => (m, FlushOutcome::Finished),
            ThenModel::ClearRamp => (ContextModel { ramp: 0, ..m }, FlushOutcome::Finished),
            ThenModel::Own(own, completes) => m.settled(own, completes),
        }
    }

    /// The context once what a failed wait left behind is released or leaked:
    /// the batch waited for, and the flush's own that was submitted after it.
    pub open spec fn given_up(self, s: SubmittedModel, then: ThenModel) -> ContextModel {
        let m = self.discharged(s);
        match then {
            ThenModel::Own(own, _) => m.discharged(own),
            _ => m,
        }
    }

    /// The context once a batch is lost at or before its submission.
    pub open spec fn lost_batch(self, t: TakenModel, step: Seq<char>, code: i32) -> (
        ContextModel,
        FlushOutcome,
    ) {
        let l = staged_ledger(
            retired_ledger(self.ledger, self.pool, t.batch.retired, t.batch.kernels),
            t.batch.staging,
        ).destroyed(Order::DestroyFence(t.batch.fence)).destroyed(
            Order::FreeCommandBuffer(t.batch.commands),
        );
        let m = ContextModel {
            pool: retired_pool(self.ledger, self.pool, t.batch.retired),
            ledger: l,
            ..self
        };
        if code == ERROR_DEVICE_LOST {
            (
                m.poisoned_by(submission_lost_text(t.what, step), true),
                FlushOutcome::Refused(Failure::Vulkan(ERROR_DEVICE_LOST)),
            )
        } else {
            let why = submission_failed_text(t.what, step, code);
            (m.poisoned_by(why, false), FlushOutcome::Refused(Failure::Batch(why)))
        }
    }

    /// The timing totals once a batch's stamps gave a span.
    pub open spec fn accumulated(self, stamps: u32, sum: u64, min: u64, max: u64) -> ContextModel {
        let t = self.timing;
        ContextModel {
            timing: TimingCounts {
                flushes: t.flushes.wrapping_add(1),
                items: t.items.wrapping_add((stamps - 1) as u64),
                span_ns: t.span_ns.saturating_add(sum),
                min_item_ns: if min < t.min_item_ns {
                    min
                } else {
                    t.min_item_ns
                },
                max_item_ns: if max > t.max_item_ns {
                    max
                } else {
                    t.max_item_ns
                },
                unresolved: t.unresolved.wrapping_sub(1),
            },
            ..self
        }
    }

    /// The context and the flush once it has begun.
    #[verifier::opaque]
    pub open spec fn flushing(self, reason: FlushReason) -> (ContextModel, FlushOutcome) {
        let m = ContextModel {
            recorder: None,
            batch_gen: self.batch_gen.wrapping_add(1),
            ..self
        };
        match self.poison_refusal() {
            Some(failure) => (self, FlushOutcome::Refused(failure)),
            None => match self.recorder {
                None => if !self.completes(reason) {
                    (m, FlushOutcome::Finished)
                } else {
                    match self.in_flight {
                        Some(s) => (
                            ContextModel { in_flight: None, ..m },
                            FlushOutcome::Pending(FlushModel::Wait(s, ThenModel::ClearRamp)),
                        ),
                        None => (ContextModel { ramp: 0, ..m }, FlushOutcome::Finished),
                    }
                },
                Some(batch) => {
                    let i = reason.place();
                    (
                        ContextModel {
                            flushes: self.flushes.update(i, self.flushes[i].wrapping_add(1)),
                            timing: TimingCounts {
                                unresolved: if batch.stamps > 1 {
                                    self.timing.unresolved.wrapping_add(1)
                                } else {
                                    self.timing.unresolved
                                },
                                ..self.timing
                            },
                            ..m
                        },
                        FlushOutcome::Pending(
                            FlushModel::End(
                                TakenModel {
                                    batch,
                                    what: batch.plan.description(reason),
                                    completes: self.completes(reason),
                                },
                            ),
                        ),
                    )
                },
            },
        }
    }

    /// The context and the flush once its own batch is submitted: the batch
    /// before it is finished first.
    pub open spec fn submission(self, t: TakenModel) -> (ContextModel, FlushOutcome) {
        let own = submitted(t, self.bank);
        match self.in_flight {
            Some(s) => (
                ContextModel { in_flight: None, ..self },
                FlushOutcome::Pending(FlushModel::Wait(s, ThenModel::Own(own, t.completes))),
            ),
            None => self.settled(own, t.completes),
        }
    }

    /// The context and the flush once a wait failed, by what quiescing the
    /// device returned.
    pub open spec fn failed_wait(
        self,
        s: SubmittedModel,
        then: ThenModel,
        wait: i32,
        idle: Option<i32>,
    ) -> (ContextModel, FlushOutcome) {
        if is_loss(wait, idle) {
            (
                self.poisoned_by(batch_lost_text(s.what, wait, idle), true).given_up(s, then),
                FlushOutcome::Refused(Failure::Vulkan(ERROR_DEVICE_LOST)),
            )
        } else {
            match idle {
                None => (self.given_up(s, then), FlushOutcome::Refused(Failure::Vulkan(wait))),
                Some(code) => {
                    let why = batch_unknown_text(s.what, wait, code);
                    (
                        self.poisoned_by(why, false).given_up(s, then),
                        FlushOutcome::Refused(Failure::Poisoned(why)),
                    )
                },
            }
        }
    }

    /// The context and a flush after a reply.
    #[verifier::opaque]
    pub open spec fn flush_after(self, f: FlushModel, reply: Reply) -> (
        ContextModel,
        FlushOutcome,
    ) {
        match (f, reply) {
            (FlushModel::End(t), Reply::Failed(code)) => self.lost_batch(
                t,
                "end_command_buffer"@,
                code,
            ),
            (FlushModel::End(t), _) => (self, FlushOutcome::Pending(FlushModel::Reset(t))),
            (FlushModel::Reset(t), Reply::Failed(code)) => self.lost_batch(
                t,
                "reset_fences"@,
                code,
            ),
            (FlushModel::Reset(t), _) => (self, FlushOutcome::Pending(FlushModel::Submit(t))),
            (FlushModel::Submit(t), Reply::Failed(code)) => self.lost_batch(
                t,
                "queue_submit"@,
                code,
            ),
            (FlushModel::Submit(t), _) => self.submission(t),
            (FlushModel::Wait(s, then), Reply::Failed(code)) => (
                self,
                FlushOutcome::Pending(FlushModel::Idle(s, then, code)),
            ),
            (FlushModel::Wait(s, then), _) => match self.queries {
                Some(pool) => if s.stamps > 1 && !s.overflow {
                    (self, FlushOutcome::Pending(FlushModel::Stamps(s, then, pool)))
                } else {
                    self.finished(s, then)
                },
                None => self.finished(s, then),
            },
            (FlushModel::Stamps(s, then, _), Reply::Span { sum, min, max }) => self.accumulated(
                s.stamps,
                sum,
                min,
                max,
            ).finished(s, then),
            (FlushModel::Stamps(s, then, _), _) => self.finished(s, then),
            (FlushModel::Idle(s, then, wait), _) => self.failed_wait(
                s,
                then,
                wait,
                failure_of(reply),
            ),
        }
    }
}

/// Discharging a batch keeps whether the context is usable, and everything but
/// the ledger and the pool.
pub proof fn lemma_discharged(m: ContextModel, s: SubmittedModel)
    requires
        m.wf(),
        all_words(s.retired),
    ensures
        m.discharged(s).ledger.poisoned == m.ledger.poisoned,
        m.discharged(s).ledger.lost == m.ledger.lost,
        m.discharged(s).ledger.wf(),
{
    lemma_release_keeps_state(m.ledger, m.pool, s.retired, s.kernels, s.staging);
    let l = retired_ledger(m.ledger, m.pool, s.retired, s.kernels);
    lemma_release_keeps_state(l, m.pool, s.retired, s.kernels, s.staging);
    law_leaked_objects_are_counted(staged_ledger(l, s.staging), 2);
}

/// A flush that must complete returns only once nothing is recorded and nothing
/// is in flight: whatever its reply, it stays such a flush, or is refused, or
/// has left the context quiet.
pub proof fn law_a_completing_flush_leaves_nothing_behind(
    m: ContextModel,
    f: FlushModel,
    reply: Reply,
)
    requires
        m.wf(),
        f.held_by(m),
        f.promises_quiet(),
        f.next_call().admits(reply),
    ensures
        match m.flush_after(f, reply).1 {
            FlushOutcome::Pending(g) => g.promises_quiet(),
            FlushOutcome::Finished => m.flush_after(f, reply).0.quiet(),
            FlushOutcome::Refused(_) => true,
        },
{
    reveal(ContextModel::flush_after);
}

/// A flush begun for a reason that completes promises quiet, or has found it.
pub proof fn law_a_completing_reason_promises_quiet(m: ContextModel, reason: FlushReason)
    requires
        m.wf(),
        m.completes(reason),
    ensures
        match m.flushing(reason).1 {
            FlushOutcome::Pending(f) => f.promises_quiet(),
            FlushOutcome::Finished => m.flushing(reason).0.quiet(),
            FlushOutcome::Refused(_) => !m.ledger.usable(),
        },
{
    reveal(ContextModel::flushing);
}

/// A batch whose items were accepted is never lost in silence: a flush that is
/// refused either poisons the context, or its wait failed on a device that was
/// then quiesced, so that the batch ran.
pub proof fn law_lost_work_poisons(m: ContextModel, f: FlushModel, reply: Reply)
    requires
        m.wf(),
        f.held_by(m),
        f.next_call().admits(reply),
        m.flush_after(f, reply).1 is Refused,
    ensures
        m.flush_after(f, reply).0.ledger.usable() ==> f is Idle && reply is Done,
{
    reveal(ContextModel::flush_after);
    match f {
        FlushModel::Idle(s, then, wait) => {
            let idle = failure_of(reply);
            let why = if is_loss(wait, idle) {
                batch_lost_text(s.what, wait, idle)
            } else {
                batch_unknown_text(s.what, wait, idle->0)
            };
            let p = m.poisoned_by(why, is_loss(wait, idle));
            if is_loss(wait, idle) || idle is Some {
                lemma_discharged(p, s);
                if let ThenModel::Own(own, _) = then {
                    lemma_discharged_twice(p, s, own);
                }
            }
        },
        _ => {},
    }
}

proof fn lemma_discharged_twice(m: ContextModel, s: SubmittedModel, own: SubmittedModel)
    requires
        m.wf(),
        all_words(s.retired),
        all_words(own.retired),
    ensures
        m.discharged(s).discharged(own).ledger.poisoned == m.ledger.poisoned,
        m.discharged(s).discharged(own).ledger.lost == m.ledger.lost,
        m.discharged(s).discharged(own).ledger.wf(),
{
    lemma_discharged(m, s);
    let d = m.discharged(s);
    lemma_release_keeps_state(d.ledger, d.pool, own.retired, own.kernels, own.staging);
    let l = retired_ledger(d.ledger, d.pool, own.retired, own.kernels);
    lemma_release_keeps_state(l, d.pool, own.retired, own.kernels, own.staging);
    law_leaked_objects_are_counted(staged_ledger(l, own.staging), 2);
}

impl Flush {
    /// The call to make next.
    pub fn call(&self) -> (r: Call)
        ensures
            r == self@.next_call(),
    {
        match self {
            Flush::End(t) => Call::End { commands: t.batch.commands },
            Flush::Reset(t) => Call::ResetFence { fence: t.batch.fence },
            Flush::Submit(t) => Call::Submit { commands: t.batch.commands, fence: t.batch.fence },
            Flush::Wait(s, _) => Call::WaitFence { fence: s.fence },
            Flush::Idle(..) => Call::WaitIdle,
            Flush::Stamps(s, _, pool) => Call::ReadStamps { pool: *pool, count: s.stamps },
        }
    }
}

impl Context {
    /// Whether a flush for `reason` must see its batch complete before it
    /// returns.
    fn completes(&self, reason: FlushReason) -> (r: bool)
        ensures
            r == self@.completes(reason),
    {
        !self.tuning.async_flush || self.tuning.timestamps || !matches!(
            reason,
            FlushReason::BatchFull | FlushReason::DescriptorsExhausted
        )
    }

    /// Submit the recorded batch and wait for it, so that nothing is recorded
    /// afterwards and nothing is in flight.
    pub fn sync(&mut self) -> (r: FlushNext)
        requires
            old(self).wf(),
        ensures
            final(self)@.same_buffers(old(self)@),
            final(self).wf(),
            (final(self)@, r@) == old(self)@.flushing(FlushReason::ExplicitSync),
            r matches FlushNext::Pending(f) ==> f@.held_by(final(self)@),
            !(r is Refused) ==> final(self)@.ledger.usable(),
    {
        self.flush(FlushReason::ExplicitSync)
    }

    /// Begin to flush the recorded batch. A flush of an empty batch submits
    /// nothing, and still sees a batch in flight through where its reason
    /// promises completion.
    pub fn flush(&mut self, reason: FlushReason) -> (r: FlushNext)
        requires
            old(self).wf(),
        ensures
            final(self)@.same_buffers(old(self)@),
            final(self).wf(),
            (final(self)@, r@) == old(self)@.flushing(reason),
            r matches FlushNext::Pending(f) ==> f@.held_by(final(self)@),
            !(r is Refused) ==> final(self)@.ledger.usable(),
            final(self)@.next_item_seq == old(self)@.next_item_seq,
    {
        self.take_batch(reason)
    }

    /// `flush`, of a batch that may be due.
    pub(super) fn take_batch(&mut self, reason: FlushReason) -> (r: FlushNext)
        requires
            old(self)@.loose(),
            old(self).pool.wf(),
            old(self)@.wf() || old(self)@.ledger.usable(),
        ensures
            final(self)@.same_buffers(old(self)@),
            final(self).wf(),
            (final(self)@, r@) == old(self)@.flushing(reason),
            r matches FlushNext::Pending(f) ==> f@.held_by(final(self)@),
            !(r is Refused) ==> final(self)@.ledger.usable(),
            final(self)@.next_item_seq == old(self)@.next_item_seq,
    {
        reveal(ContextModel::flushing);
        match self.check_live() {
            Ok(()) => {},
            Err(e) => {
                return FlushNext::Refused(e);
            },
        }
        let completes: bool = self.completes(reason);
        let taken: Option<Recorder> = self.recorder.take();
        self.batch_gen = self.batch_gen.wrapping_add(1);
        match taken {
            None => {
                if completes {
                    match self.in_flight.take() {
                        Some(s) => {
                            return FlushNext::Pending(Flush::Wait(s, Then::ClearRamp));
                        },
                        None => {
                            self.ramp = 0;
                        },
                    }
                }
                FlushNext::Finished
            },
            Some(batch) => {
                let i: usize = flush_reason_index(reason);
                self.flushes[i] = self.flushes[i].wrapping_add(1);
                let what = batch.plan.describe(reason);
                if batch.stamps > 1 {
                    self.timing.unresolved = self.timing.unresolved.wrapping_add(1);
                }
                proof {
                    assert(self@ =~= old(self)@.flushing(reason).0);
                }
                FlushNext::Pending(Flush::End(Taken { batch, what, completes }))
            },
        }
    }

    /// Release what a finished batch held, or leave it allocated and count it.
    pub(super) fn discharge(&mut self, s: &Submitted)
        requires
            old(self).wf(),
            all_words(s@.retired),
        ensures
            final(self)@.same_buffers(old(self)@),
            final(self).wf(),
            final(self)@ == old(self)@.discharged(s@),
    {
        proof {
            lemma_discharged(self@, s@);
            lemma_release_keeps_state(
                self@.ledger,
                self@.pool,
                s@.retired,
                s@.kernels,
                s@.staging,
            );
            let l = retired_ledger(self@.ledger, self@.pool, s@.retired, s@.kernels);
            lemma_release_keeps_state(l, self@.pool, s@.retired, s@.kernels, s@.staging);
        }
        release_retired(&mut self.pool, &mut self.ledger, &s.retired, &s.kernels);
        release_staging(&mut self.ledger, &s.staging);
        if self.ledger.is_unknown() {
            self.ledger.leak(2);
        } else {
            self.ledger.release_submission(s.fence, s.commands);
        }
        proof {
            self.pool.lemma_wf();
        }
    }

    /// The flush's own batch is submitted and the batch before it is finished.
    fn settle(&mut self, own: Submitted, completes: bool) -> (r: FlushNext)
        requires
            old(self).wf(),
            old(self)@.quiet(),
            old(self)@.ledger.usable(),
            all_words(own@.retired),
            own@.bank <= 1,
        ensures
            final(self)@.same_buffers(old(self)@),
            final(self).wf(),
            (final(self)@, r@) == old(self)@.settled(own@, completes),
            r matches FlushNext::Pending(f) ==> f@.held_by(final(self)@),
            final(self)@.ledger == old(self)@.ledger,
    {
        if completes {
            self.ramp = 0;
            return FlushNext::Pending(Flush::Wait(own, Then::Return));
        }
        self.in_flight = Some(own);
        self.ramp = self.ramp.saturating_add(1);
        FlushNext::Finished
    }

    /// A batch was waited for and its stamps were read.
    fn finish(&mut self, s: Submitted, then: Then) -> (r: FlushNext)
        requires
            old(self).wf(),
            FlushModel::Wait(s@, then@).held_by(old(self)@),
        ensures
            final(self)@.same_buffers(old(self)@),
            final(self).wf(),
            (final(self)@, r@) == old(self)@.finished(s@, then@),
            r matches FlushNext::Pending(f) ==> f@.held_by(final(self)@),
            final(self)@.ledger.usable(),
    {
        proof {
            lemma_discharged(self@, s@);
        }
        self.discharge(&s);
        match then {
            Then::Return => FlushNext::Finished,
            Then::ClearRamp => {
                self.ramp = 0;
                FlushNext::Finished
            },
            Then::Own(own, completes) => self.settle(own, completes),
        }
    }

    /// A wait failed: release or leave allocated what it was for.
    fn give_up(&mut self, s: &Submitted, then: &Then)
        requires
            old(self).wf(),
            FlushModel::Wait(s@, then@).wf(),
        ensures
            final(self)@.same_buffers(old(self)@),
            final(self).wf(),
            final(self)@ == old(self)@.given_up(s@, then@),
    {
        self.discharge(s);
        match then {
            Then::Own(own, _) => {
                self.discharge(own);
            },
            _ => {},
        }
    }

    /// A flush failed at or before its submission: the batch is gone.
    fn lose_batch(&mut self, t: Taken, step: &str, code: i32) -> (r: FlushNext)
        requires
            old(self).wf(),
            FlushModel::End(t@).held_by(old(self)@),
        ensures
            final(self)@.same_buffers(old(self)@),
            final(self).wf(),
            (final(self)@, r@) == old(self)@.lost_batch(t@, step@, code),
    {
        proof {
            let b = t@.batch;
            lemma_release_keeps_state(
                self@.ledger,
                self@.pool,
                b.retired,
                b.kernels,
                b.staging,
            );
            let l = retired_ledger(self@.ledger, self@.pool, b.retired, b.kernels);
            lemma_release_keeps_state(l, self@.pool, b.retired, b.kernels, b.staging);
        }
        release_retired(&mut self.pool, &mut self.ledger, &t.batch.retired, &t.batch.kernels);
        release_staging(&mut self.ledger, &t.batch.staging);
        self.ledger.destroy(Order::DestroyFence(t.batch.fence));
        self.ledger.destroy(Order::FreeCommandBuffer(t.batch.commands));
        proof {
            self.pool.lemma_wf();
        }
        if code == ERROR_DEVICE_LOST {
            let mut why = String::from_str("device lost at ");
            why.append(step);
            why.append(" of the deferred batch (");
            why.append(t.what.as_str());
            why.append(
                "); whether any of its operations ran is unknown, and nothing runs on this device again",
            );
            self.ledger.poison(why, true);
            return FlushNext::Refused(AckError::Vulkan(ERROR_DEVICE_LOST));
        }
        let mut why = String::from_str("flush (");
        why.append(t.what.as_str());
        why.append(") failed at ");
        why.append(step);
        why.append(": ");
        let name = result_text(code);
        why.append(name.as_str());
        why.append("; ");
        why.append(
            if code == ERROR_OUT_OF_HOST_MEMORY || code == ERROR_OUT_OF_DEVICE_MEMORY {
                "nothing was submitted, so none of its operations ran"
            } else {
                "whether any of its operations ran is UNKNOWN: this result is outside the set for which the submission is guaranteed to have left the queue unaffected"
            },
        );
        why.append(
            ". Every operation in this batch was already reported accepted and none of them can now run, so this context is poisoned and refuses every later call",
        );
        self.ledger.poison(why.clone(), false);
        FlushNext::Refused(AckError::Batch(why))
    }

    /// Fold a batch's span into the totals.
    fn accumulate_timestamps(&mut self, stamps: u32, sum: u64, min: u64, max: u64)
        requires
            old(self).wf(),
            stamps > 1,
        ensures
            final(self)@.same_buffers(old(self)@),
            final(self).wf(),
            final(self)@ == old(self)@.accumulated(stamps, sum, min, max),
    {
        self.timing.flushes = self.timing.flushes.wrapping_add(1);
        self.timing.items = self.timing.items.wrapping_add((stamps - 1) as u64);
        self.timing.span_ns = self.timing.span_ns.saturating_add(sum);
        if min < self.timing.min_item_ns {
            self.timing.min_item_ns = min;
        }
        if max > self.timing.max_item_ns {
            self.timing.max_item_ns = max;
        }
        self.timing.unresolved = self.timing.unresolved.wrapping_sub(1);
    }

    /// A batch's submission succeeded.
    fn submitted(&mut self, t: Taken) -> (r: FlushNext)
        requires
            old(self).wf(),
            FlushModel::Submit(t@).held_by(old(self)@),
        ensures
            final(self)@.same_buffers(old(self)@),
            final(self).wf(),
            (final(self)@, r@) == old(self)@.submission(t@),
            r matches FlushNext::Pending(g) ==> g@.held_by(final(self)@),
            final(self)@.ledger == old(self)@.ledger,
    {
        let completes: bool = t.completes;
        let own = Submitted {
            commands: t.batch.commands,
            fence: t.batch.fence,
            what: t.what,
            retired: t.batch.retired,
            kernels: t.batch.kernels,
            stamps: t.batch.stamps,
            overflow: t.batch.overflow,
            bank: self.bank,
            staging: t.batch.staging,
        };
        match self.in_flight.take() {
            Some(s) => FlushNext::Pending(Flush::Wait(s, Then::Own(own, completes))),
            None => self.settle(own, completes),
        }
    }

    /// A wait failed, and this is what quiescing the device returned.
    fn wait_failed(&mut self, s: Submitted, then: Then, wait: i32, idle: Option<i32>) -> (r:
        FlushNext)
        requires
            old(self).wf(),
            FlushModel::Wait(s@, then@).held_by(old(self)@),
        ensures
            final(self)@.same_buffers(old(self)@),
            final(self).wf(),
            (final(self)@, r@) == old(self)@.failed_wait(s@, then@, wait, idle),
            r is Refused,
    {
        let lost: bool = wait == ERROR_DEVICE_LOST || match idle {
            Some(code) => code == ERROR_DEVICE_LOST,
            None => false,
        };
        if lost {
            let mut why = String::from_str(
                "device lost after a failed fence wait on the deferred batch (",
            );
            why.append(s.what.as_str());
            why.append(") (wait ");
            let name = result_text(wait);
            why.append(name.as_str());
            why.append(", idle ");
            let after = outcome(idle);
            why.append(after.as_str());
            why.append("); nothing runs on it again");
            self.ledger.poison(why, true);
            self.give_up(&s, &then);
            return FlushNext::Refused(AckError::Vulkan(ERROR_DEVICE_LOST));
        }
        match idle {
            None => {
                self.give_up(&s, &then);
                FlushNext::Refused(AckError::Vulkan(wait))
            },
            Some(code) => {
                let mut why = String::from_str("the flush of the deferred batch (");
                why.append(s.what.as_str());
                why.append(") failed its fence wait (");
                let name = result_text(wait);
                why.append(name.as_str());
                why.append(") and the device could not be quiesced (");
                let other = result_text(code);
                why.append(other.as_str());
                why.append(
                    "): EVERY operation in the batch is of unknown completion, none is known to have run and none is known not to have run; the batch's fence, command buffer and retired objects stay allocated, and this context refuses every later call",
                );
                self.ledger.poison(why.clone(), false);
                self.give_up(&s, &then);
                FlushNext::Refused(AckError::Poisoned(why))
            },
        }
    }

    /// Take the reply to a flush's call.
    pub fn advance_flush(&mut self, f: Flush, reply: Reply) -> (r: FlushNext)
        requires
            old(self).wf(),
            f@.held_by(old(self)@),
            f@.next_call().admits(reply),
        ensures
            final(self)@.same_buffers(old(self)@),
            final(self).wf(),
            (final(self)@, r@) == old(self)@.flush_after(f@, reply),
            r matches FlushNext::Pending(g) ==> g@.held_by(final(self)@),
            !(r is Refused) ==> final(self)@.ledger.usable(),
            final(self)@.next_item_seq == old(self)@.next_item_seq,
    {
        reveal(ContextModel::flush_after);
        match f {
            Flush::End(t) => match reply {
                Reply::Failed(code) => self.lose_batch(t, "end_command_buffer", code),
                _ => FlushNext::Pending(Flush::Reset(t)),
            },
            Flush::Reset(t) => match reply {
                Reply::Failed(code) => self.lose_batch(t, "reset_fences", code),
                _ => FlushNext::Pending(Flush::Submit(t)),
            },
            Flush::Submit(t) => match reply {
                Reply::Failed(code) => self.lose_batch(t, "queue_submit", code),
                _ => self.submitted(t),
            },
            Flush::Wait(s, then) => match reply {
                Reply::Failed(code) => FlushNext::Pending(Flush::Idle(s, then, code)),
                _ => match self.queries {
                    Some(pool) => if s.stamps > 1 && !s.overflow {
                        FlushNext::Pending(Flush::Stamps(s, then, pool))
                    } else {
                        self.finish(s, then)
                    },
                    None => self.finish(s, then),
                },
            },
            Flush::Stamps(s, then, _) => {
                if let Reply::Span { sum, min, max } = reply {
                    self.accumulate_timestamps(s.stamps, sum, min, max);
                }
                self.finish(s, then)
            },
            Flush::Idle(s, then, wait) => {
                let idle: Option<i32> = match reply {
                    Reply::Failed(code) => Some(code),
                    _ => None,
                };
                self.wait_failed(s, then, wait, idle)
            },
        }
    }
}

/// A flush of a recorded batch is counted under its reason and begins a new
/// generation of descriptor sets; the batch is ended, its fence reset, and both
/// submitted together.
pub proof fn law_batch_is_ended_reset_and_submitted(m: ContextModel, reason: FlushReason)
    requires
        m.ledger.usable(),
        m.recorder is Some,
        m.flushes.len() == 9,
    ensures
        ({
            let r = m.recorder->0;
            let (m0, o0) = m.flushing(reason);
            let (m1, o1) = m0.flush_after(o0->Pending_0, Reply::Done);
            let (m2, o2) = m1.flush_after(o1->Pending_0, Reply::Done);
            &&& m0.flushes == m.flushes.update(
                reason.place(),
                m.flushes[reason.place()].wrapping_add(1),
            )
            &&& m0.batch_gen == m.batch_gen.wrapping_add(1)
            &&& m0.recorder is None
            &&& m0.in_flight == m.in_flight && m0.ramp == m.ramp && m0.bank == m.bank
            &&& m0.ledger == m.ledger && m0.pool == m.pool && m0.live == m.live
            &&& m0.counts == m.counts && m0.next_item_seq == m.next_item_seq
            &&& r.stamps > 1 ==> m0.timing.unresolved == m.timing.unresolved.wrapping_add(1)
            &&& r.stamps <= 1 ==> m0.timing == m.timing
            &&& o0 is Pending && o0->Pending_0.next_call() == (Call::End { commands: r.commands })
            &&& o1 is Pending && o1->Pending_0.next_call() == (Call::ResetFence { fence: r.fence })
            &&& o2 is Pending && o2->Pending_0.next_call() == (Call::Submit {
                commands: r.commands,
                fence: r.fence,
            })
            &&& m1 == m0 && m2 == m0
            &&& o2->Pending_0 is Submit
            &&& o2->Pending_0->Submit_0.batch == r
            &&& o2->Pending_0->Submit_0.what == r.plan.description(reason)
            &&& o2->Pending_0->Submit_0.completes == m.completes(reason)
        }),
{
    reveal(ContextModel::flushing);
    reveal(ContextModel::flush_after);
}

/// A submitted batch is what was recorded, in the bank it was recorded in.
pub proof fn law_submitted_batch_is_the_recorded_one(t: TakenModel, bank: u32)
    ensures
        submitted(t, bank).commands == t.batch.commands,
        submitted(t, bank).fence == t.batch.fence,
        submitted(t, bank).what == t.what,
        submitted(t, bank).retired == t.batch.retired,
        submitted(t, bank).kernels == t.batch.kernels,
        submitted(t, bank).stamps == t.batch.stamps,
        submitted(t, bank).overflow == t.batch.overflow,
        submitted(t, bank).staging == t.batch.staging,
        submitted(t, bank).bank == bank,
{
}

/// Once a batch is submitted the one before it is waited for; without one, the
/// batch itself is waited for where the flush completes, and else it stays in
/// flight and the ramp goes up.
pub proof fn law_submission_sees_the_batch_before_through(m: ContextModel, t: TakenModel)
    ensures
        ({
            let own = submitted(t, m.bank);
            let (after, out) = m.flush_after(FlushModel::Submit(t), Reply::Done);
            &&& m.in_flight matches Some(s) ==> {
                &&& out == FlushOutcome::Pending(
                    FlushModel::Wait(s, ThenModel::Own(own, t.completes)),
                )
                &&& after == (ContextModel { in_flight: None, ..m })
            }
            &&& m.in_flight is None && t.completes ==> {
                &&& out == FlushOutcome::Pending(FlushModel::Wait(own, ThenModel::Return))
                &&& after == (ContextModel { ramp: 0, ..m })
            }
            &&& m.in_flight is None && !t.completes ==> {
                &&& out == FlushOutcome::Finished
                &&& after == (ContextModel {
                    in_flight: Some(own),
                    ramp: m.ramp.saturating_add(1),
                    ..m
                })
            }
        }),
{
    reveal(ContextModel::flush_after);
}

/// A flush with nothing recorded still frees the descriptor sets; where it
/// completes it waits for the batch in flight, and the ramp starts again. A
/// poisoned context refuses it and is left alone.
pub proof fn law_empty_flush_waits_for_what_is_in_flight(m: ContextModel, reason: FlushReason)
    ensures
        m.ledger.poisoned matches Some(why) ==> m.flushing(reason) == (
            m,
            FlushOutcome::Refused(Failure::Poisoned(why)),
        ),
        m.ledger.usable() && m.recorder is None ==> {
            let (after, out) = m.flushing(reason);
            &&& after.batch_gen == m.batch_gen.wrapping_add(1)
            &&& after.flushes == m.flushes && after.ledger == m.ledger && after.pool == m.pool
            &&& !m.completes(reason) ==> out is Finished && after.in_flight == m.in_flight
                && after.ramp == m.ramp
            &&& m.completes(reason) && m.in_flight is None ==> out is Finished && after.ramp == 0
            &&& m.completes(reason) && m.in_flight is Some ==> {
                &&& out == FlushOutcome::Pending(
                    FlushModel::Wait(m.in_flight->0, ThenModel::ClearRamp),
                )
                &&& after.in_flight is None
            }
        },
{
    reveal(ContextModel::flushing);
}

/// A batch whose fence was seen gives its pairs back to the pool, destroys its
/// kernels and staging pairs, then its fence and its command buffer. Where the
/// device state is unknown nothing is destroyed, and all of it is counted.
pub proof fn law_finished_batch_releases_everything(m: ContextModel, s: SubmittedModel)
    requires
        i64::MIN + 2 <= m.ledger.live_objects,
        m.ledger.leaked + 2 * s.retired.len() + 4 * s.kernels.len() + 2 * s.staging.len() + 2
            <= u64::MAX,
    ensures
        m.ledger.poisoned is None || m.ledger.lost ==> {
            &&& m.discharged(s).ledger.orders == m.ledger.orders + m.pool.declined_orders(s.retired)
                + kernel_rows(s.kernels) + staging_rows(s.staging) + seq![
                Order::DestroyFence(s.fence),
                Order::FreeCommandBuffer(s.commands),
            ]
            &&& m.discharged(s).pool == m.pool.recycled_all(s.retired)
            &&& m.discharged(s).ledger.leaked == m.ledger.leaked
        },
        m.ledger.poisoned is Some && !m.ledger.lost ==> {
            &&& m.discharged(s).ledger.orders == m.ledger.orders
            &&& m.discharged(s).ledger.leaked == m.ledger.leaked + 2 * s.retired.len() + 4
                * s.kernels.len() + 2 * s.staging.len() + 2
            &&& m.discharged(s).pool == m.pool
        },
        m.discharged(s).ledger.poisoned == m.ledger.poisoned,
        m.discharged(s).ledger.lost == m.ledger.lost,
{
    let l1 = retired_ledger(m.ledger, m.pool, s.retired, s.kernels);
    lemma_release_keeps_state(m.ledger, m.pool, s.retired, s.kernels, s.staging);
    lemma_release_keeps_state(l1, m.pool, s.retired, s.kernels, s.staging);
    law_released_batch_is_pooled_destroyed_or_leaked(
        m.ledger,
        m.pool,
        s.retired,
        s.kernels,
        s.staging,
    );
    law_released_batch_is_pooled_destroyed_or_leaked(
        l1,
        m.pool,
        Seq::empty(),
        Seq::empty(),
        s.staging,
    );
    let l2 = staged_ledger(l1, s.staging);
    law_leaked_objects_are_counted(l2, 2);
    if !m.ledger.unknown() {
        assert(l2.torn_down(s.fence, s.commands).orders =~= l2.orders + seq![
            Order::DestroyFence(s.fence),
            Order::FreeCommandBuffer(s.commands),
        ]);
    }
}

/// After a wait, a batch with stamps beyond its origin that all fit the pool has
/// them read, and any other is released at once; what comes after it goes on.
pub proof fn law_stamps_are_read_after_the_wait(
    m: ContextModel,
    s: SubmittedModel,
    then: ThenModel,
    sum: u64,
    min: u64,
    max: u64,
)
    ensures
        ({
            let (after, out) = m.flush_after(FlushModel::Wait(s, then), Reply::Done);
            let stamped = m.queries is Some && s.stamps > 1 && !s.overflow;
            &&& stamped ==> after == m && out == FlushOutcome::Pending(
                FlushModel::Stamps(s, then, m.queries->0),
            )
            &&& !stamped ==> (after, out) == m.finished(s, then)
        }),
        FlushModel::Stamps(s, then, sum).next_call() == (Call::ReadStamps {
            pool: sum,
            count: s.stamps,
        }),
        FlushModel::Wait(s, then).next_call() == (Call::WaitFence { fence: s.fence }),
        m.flush_after(FlushModel::Stamps(s, then, sum), Reply::NoSpan) == m.finished(s, then),
        m.flush_after(FlushModel::Stamps(s, then, sum), Reply::Span { sum, min, max })
            == m.accumulated(s.stamps, sum, min, max).finished(s, then),
        m.finished(s, ThenModel::Return) == (m.discharged(s), FlushOutcome::Finished),
        m.finished(s, ThenModel::ClearRamp) == (
            (ContextModel { ramp: 0, ..m.discharged(s) }),
            FlushOutcome::Finished,
        ),
{
    reveal(ContextModel::flush_after);
}

/// A timed batch adds its items and its span to what was timed, moves the two
/// extremes only outwards, and is no longer unresolved.
pub proof fn law_timed_batch_is_added(m: ContextModel, stamps: u32, sum: u64, min: u64, max: u64)
    requires
        stamps >= 1,
        m.timing.flushes < u64::MAX,
        m.timing.items + stamps <= u64::MAX,
        m.timing.unresolved > 0,
    ensures
        ({
            let t = m.accumulated(stamps, sum, min, max).timing;
            &&& t.flushes == m.timing.flushes + 1
            &&& t.items == m.timing.items + stamps - 1
            &&& m.timing.span_ns + sum <= u64::MAX ==> t.span_ns == m.timing.span_ns + sum
            &&& m.timing.span_ns + sum > u64::MAX ==> t.span_ns == u64::MAX
            &&& t.min_item_ns <= min && t.min_item_ns <= m.timing.min_item_ns
            &&& t.min_item_ns == min || t.min_item_ns == m.timing.min_item_ns
            &&& t.max_item_ns >= max && t.max_item_ns >= m.timing.max_item_ns
            &&& t.max_item_ns == max || t.max_item_ns == m.timing.max_item_ns
            &&& t.unresolved == m.timing.unresolved - 1
        }),
        m.accumulated(stamps, sum, min, max) == (ContextModel {
            timing: m.accumulated(stamps, sum, min, max).timing,
            ..m
        }),
{
}

/// A batch that fails on its way to the queue is lost: what it held is released,
/// its fence and command buffer last, and the context is poisoned. The refusal
/// is the lost device, or names the batch, the step and the code.
pub proof fn law_unsubmitted_batch_poisons(m: ContextModel, t: TakenModel, code: i32)
    requires
        m.ledger.usable(),
        !m.ledger.lost,
    ensures
        ({
            let ended = m.flush_after(FlushModel::End(t), Reply::Failed(code));
            let reset = m.flush_after(FlushModel::Reset(t), Reply::Failed(code));
            let sent = m.flush_after(FlushModel::Submit(t), Reply::Failed(code));
            let orders = m.ledger.orders + m.pool.declined_orders(t.batch.retired) + kernel_rows(
                t.batch.kernels,
            ) + staging_rows(t.batch.staging) + seq![
                Order::DestroyFence(t.batch.fence),
                Order::FreeCommandBuffer(t.batch.commands),
            ];
            &&& sent.0.ledger.orders == orders
            &&& ended.0.ledger.orders == orders
            &&& reset.0.ledger.orders == orders
            &&& sent.0.pool == m.pool.recycled_all(t.batch.retired)
            &&& !sent.0.ledger.usable() && !ended.0.ledger.usable() && !reset.0.ledger.usable()
            &&& sent.0.ledger.lost <==> code == -4
            &&& code == -4 ==> {
                &&& sent.1 == FlushOutcome::Refused(Failure::Vulkan(-4i32))
                &&& sent.0.ledger.poisoned == Some(submission_lost_text(t.what, "queue_submit"@))
                &&& ended.0.ledger.poisoned == Some(
                    submission_lost_text(t.what, "end_command_buffer"@),
                )
                &&& reset.0.ledger.poisoned == Some(submission_lost_text(t.what, "reset_fences"@))
            }
            &&& code != -4 ==> {
                &&& sent.1 == FlushOutcome::Refused(Failure::Batch(sent.0.ledger.poisoned->0))
                &&& sent.0.ledger.poisoned == Some(
                    submission_failed_text(t.what, "queue_submit"@, code),
                )
                &&& ended.0.ledger.poisoned == Some(
                    submission_failed_text(t.what, "end_command_buffer"@, code),
                )
                &&& reset.0.ledger.poisoned == Some(
                    submission_failed_text(t.what, "reset_fences"@, code),
                )
            }
        }),
{
    reveal(ContextModel::flush_after);
    let b = t.batch;
    let l1 = retired_ledger(m.ledger, m.pool, b.retired, b.kernels);
    lemma_release_keeps_state(m.ledger, m.pool, b.retired, b.kernels, b.staging);
    law_destroyed_objects_are_counted(m.ledger, m.pool.declined_orders(b.retired));
    law_destroyed_objects_are_counted(
        m.ledger.destroyed_all(m.pool.declined_orders(b.retired)),
        kernel_rows(b.kernels),
    );
    law_destroyed_objects_are_counted(l1, staging_rows(b.staging));
    let l2 = staged_ledger(l1, b.staging);
    assert(l2.destroyed(Order::DestroyFence(b.fence)).destroyed(
        Order::FreeCommandBuffer(b.commands),
    ).orders =~= l2.orders + seq![
        Order::DestroyFence(b.fence),
        Order::FreeCommandBuffer(b.commands),
    ]);
}

/// Only exhausted memory guarantees that a failed submission ran nothing.
pub proof fn law_only_exhausted_memory_ran_nothing(what: Seq<char>, step: Seq<char>, code: i32)
    ensures
        code == -1 || code == -2 ==> ran_text(code)
            == "nothing was submitted, so none of its operations ran"@,
        code != -1 && code != -2 ==> ran_text(code)
            == "whether any of its operations ran is UNKNOWN: this result is outside the set for which the submission is guaranteed to have left the queue unaffected"@,
        submission_failed_text(what, step, code) == "flush ("@ + what + ") failed at "@ + step
            + ": "@ + result_name(code) + "; "@ + ran_text(code)
            + ". Every operation in this batch was already reported accepted and none of them can now run, so this context is poisoned and refuses every later call"@,
        submission_lost_text(what, step) == "device lost at "@ + step + " of the deferred batch ("@
            + what
            + "); whether any of its operations ran is unknown, and nothing runs on this device again"@,
{
}

/// A failed wait for a batch has the device waited for. A lost device poisons
/// the context with what the batch held released; an idle one releases it and
/// reports the wait's code; any other leaves it allocated and poisons the
/// context with the same text that it reports.
pub proof fn law_failed_batch_wait_quiesces(
    m: ContextModel,
    s: SubmittedModel,
    then: ThenModel,
    wait: i32,
    idle: i32,
)
    requires
        m.ledger.usable(),
        !m.ledger.lost,
    ensures
        ({
            let (m1, o1) = m.flush_after(FlushModel::Wait(s, then), Reply::Failed(wait));
            let q = FlushModel::Idle(s, then, wait);
            let (done, done_o) = m.flush_after(q, Reply::Done);
            let (bad, bad_o) = m.flush_after(q, Reply::Failed(idle));
            &&& m1 == m && o1 == FlushOutcome::Pending(q)
            &&& q.next_call() == Call::WaitIdle
            &&& wait == -4 || idle == -4 ==> bad.ledger.lost && !bad.ledger.usable() && bad_o
                == FlushOutcome::Refused(Failure::Vulkan(-4i32))
            &&& wait == -4 ==> done.ledger.lost && !done.ledger.usable() && done_o
                == FlushOutcome::Refused(Failure::Vulkan(-4i32))
            &&& wait != -4 ==> done == m.given_up(s, then) && done.ledger.usable() && done_o
                == FlushOutcome::Refused(Failure::Vulkan(wait))
            &&& wait != -4 && idle != -4 ==> !bad.ledger.lost && !bad.ledger.usable()
                && bad.ledger.orders == m.ledger.orders && bad.pool == m.pool && bad_o
                == FlushOutcome::Refused(Failure::Poisoned(bad.ledger.poisoned->0))
        }),
        m.given_up(s, ThenModel::Return) == m.discharged(s),
        then matches ThenModel::Own(own, c) ==> m.given_up(s, then) == m.discharged(s).discharged(
            own,
        ),
{
    reveal(ContextModel::flush_after);
    let lost = m.poisoned_by(batch_lost_text(s.what, wait, Some(idle)), true);
    let gone = m.poisoned_by(batch_lost_text(s.what, wait, None), true);
    let stuck = m.poisoned_by(batch_unknown_text(s.what, wait, idle), false);
    lemma_given_up_keeps_state(m, s, then);
    lemma_given_up_keeps_state(lost, s, then);
    lemma_given_up_keeps_state(gone, s, then);
    lemma_given_up_keeps_state(stuck, s, then);
}

proof fn lemma_discharged_keeps_state(m: ContextModel, s: SubmittedModel)
    ensures
        m.discharged(s).ledger.poisoned == m.ledger.poisoned,
        m.discharged(s).ledger.lost == m.ledger.lost,
        m.ledger.unknown() ==> m.discharged(s).ledger.orders == m.ledger.orders && m.discharged(
            s,
        ).pool == m.pool,
{
    let l1 = retired_ledger(m.ledger, m.pool, s.retired, s.kernels);
    lemma_release_keeps_state(m.ledger, m.pool, s.retired, s.kernels, s.staging);
    lemma_release_keeps_state(l1, m.pool, s.retired, s.kernels, s.staging);
    law_leaked_objects_are_counted(m.ledger, 2 * s.retired.len() + 4 * s.kernels.len());
    law_leaked_objects_are_counted(l1, 2 * s.staging.len());
    law_leaked_objects_are_counted(staged_ledger(l1, s.staging), 2);
}

proof fn lemma_given_up_keeps_state(m: ContextModel, s: SubmittedModel, then: ThenModel)
    ensures
        m.given_up(s, then).ledger.poisoned == m.ledger.poisoned,
        m.given_up(s, then).ledger.lost == m.ledger.lost,
        m.ledger.unknown() ==> m.given_up(s, then).ledger.orders == m.ledger.orders && m.given_up(
            s,
            then,
        ).pool == m.pool,
{
    lemma_discharged_keeps_state(m, s);
    if let ThenModel::Own(own, _) = then {
        lemma_discharged_keeps_state(m.discharged(s), own);
    }
}

/// A poisoned batch is named in what the context refuses with, together with the
/// codes of the wait and of the idle.
pub proof fn law_poisoned_batch_is_named(what: Seq<char>, wait: i32, idle: i32)
    ensures
        batch_lost_text(what, wait, Some(idle))
            == "device lost after a failed fence wait on the deferred batch ("@ + what + ") (wait "@
            + result_name(wait) + ", idle "@ + ("Err("@ + result_name(idle) + ")"@)
            + "); nothing runs on it again"@,
        batch_lost_text(what, wait, None)
            == "device lost after a failed fence wait on the deferred batch ("@ + what + ") (wait "@
            + result_name(wait) + ", idle "@ + "Ok(())"@ + "); nothing runs on it again"@,
        batch_unknown_text(what, wait, idle) == "the flush of the deferred batch ("@ + what
            + ") failed its fence wait ("@ + result_name(wait)
            + ") and the device could not be quiesced ("@ + result_name(idle)
            + "): EVERY operation in the batch is of unknown completion, none is known to have run and none is known not to have run; the batch's fence, command buffer and retired objects stay allocated, and this context refuses every later call"@,
{
}

} // verus!
