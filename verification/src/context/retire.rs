//! Destroying buffers and kernels: what a batch may still name is retired into
//! it and released at its fence; and the end of a context.

use super::flush::{lemma_discharged, Flush, FlushModel, FlushNext, FlushOutcome, Then, ThenModel};
use super::{
    all_words, destroy_kernels, destroy_staging, kernel_rows, staging_rows, Buffer, BufferModel,
    Context, ContextModel, PoolMode, Recorder, RecorderModel, RetiredKernel, SubmittedModel,
};
use crate::batch::FlushReason;
use crate::driver::{Call, Reply};
use crate::error::{AckError, Failure};
use crate::kernel::{Kernel, KernelModel};
use crate::ledger::{law_destroyed_objects_are_counted, pair_orders, Order};
use crate::pool::{all_pair_orders, Pair};
use vstd::prelude::*;
use vstd::string::*;

verus! {

/// A buffer's release in progress, and what had leaked before it.
#[derive(Debug)]
pub struct Release {
    flush: Flush,
    before: u64,
}

pub ghost struct ReleaseModel {
    pub flush: FlushModel,
    pub before: u64,
}

impl View for Release {
    type V = ReleaseModel;

    closed spec fn view(&self) -> ReleaseModel {
        ReleaseModel { flush: self.flush@, before: self.before }
    }
}

impl Release {
    /// The call to make next.
    pub fn call(&self) -> (r: Call)
        ensures
            r == self@.flush.next_call(),
    {
        self.flush.call()
    }
}

/// Where a release stands.
#[derive(Debug)]
pub enum ReleaseNext {
    Pending(Release),
    Finished,
    Refused(AckError),
}

pub ghost enum ReleaseOutcome {
    Pending(ReleaseModel),
    Finished,
    Refused(Failure),
}

impl View for ReleaseNext {
    type V = ReleaseOutcome;

    open spec fn view(&self) -> ReleaseOutcome {
        match self {
            ReleaseNext::Pending(r) => ReleaseOutcome::Pending(r@),
            ReleaseNext::Finished => ReleaseOutcome::Finished,
            ReleaseNext::Refused(e) => ReleaseOutcome::Refused(e@),
        }
    }
}

/// The abandonment of a context's batches in progress: the batch in flight is
/// seen through while the open one waits to be dropped.
#[derive(Debug)]
pub struct Abandon {
    flush: Flush,
    parked: Option<Recorder>,
}

pub ghost struct AbandonModel {
    pub flush: FlushModel,
    pub parked: Option<RecorderModel>,
}

impl View for Abandon {
    type V = AbandonModel;

    closed spec fn view(&self) -> AbandonModel {
        AbandonModel {
            flush: self.flush@,
            parked: match self.parked {
                Some(r) => Some(r@),
                None => None,
            },
        }
    }
}

impl AbandonModel {
    /// Nothing is recorded and nothing is in flight while the batch that was is
    /// seen through.
    pub open spec fn held_by(self, m: ContextModel) -> bool {
        &&& self.flush.held_by(m)
        &&& match self.flush {
            FlushModel::Wait(_, then)
            | FlushModel::Idle(_, then, _)
            | FlushModel::Stamps(_, then, _) => then is Return,
            _ => false,
        }
        &&& self.parked matches Some(r) ==> all_words(r.retired)
    }
}

impl Abandon {
    /// The call to make next.
    pub fn call(&self) -> (r: Call)
        ensures
            r == self@.flush.next_call(),
    {
        self.flush.call()
    }
}

/// Where an abandonment stands.
#[derive(Debug)]
pub enum AbandonNext {
    Pending(Abandon),
    Finished,
}

pub ghost enum AbandonOutcome {
    Pending(AbandonModel),
    Finished,
}

impl View for AbandonNext {
    type V = AbandonOutcome;

    open spec fn view(&self) -> AbandonOutcome {
        match self {
            AbandonNext::Pending(f) => AbandonOutcome::Pending(f@),
            AbandonNext::Finished => AbandonOutcome::Finished,
        }
    }
}

impl ContextModel {
    /// The context once a buffer that nothing can name any more is released.
    pub open spec fn recycled(self, pair: Pair) -> ContextModel {
        if self.ledger.unknown() {
            ContextModel { ledger: self.ledger.leaked(2), ..self }
        } else {
            ContextModel {
                pool: self.pool.recycled(pair),
                ledger: if self.pool.admits(pair.allocated) {
                    self.ledger
                } else {
                    self.ledger.destroyed_all(pair_orders(pair.buffer, pair.memory))
                },
                ..self
            }
        }
    }

    /// The context and the flush that a free brings on: the buffer is refused
    /// from now on, and its pair is retired into the batch that may name it, or
    /// released at once.
    pub open spec fn freed(self, b: BufferModel) -> (ContextModel, FlushOutcome) {
        let m = ContextModel { live: self.live.remove(b.id), ..self };
        if self.tuning.pool_mode is Immediate {
            (m.recycled(b.pair()), FlushOutcome::Finished)
        } else {
            m.retiring(b)
        }
    }

    /// The context and the flush that retiring a pair brings on.
    pub open spec fn retiring(self, b: BufferModel) -> (ContextModel, FlushOutcome) {
        match self.recorder {
            Some(r) => {
                let plan = r.plan.retired(b.bytes, 2);
                let m = ContextModel {
                    recorder: Some(
                        RecorderModel { plan, retired: r.retired.push(b.pair()), ..r },
                    ),
                    ..self
                };
                match plan.over_budget() {
                    Some(reason) => m.flushing(reason),
                    None => (m, FlushOutcome::Finished),
                }
            },
            None => match self.in_flight {
                Some(s) => (
                    ContextModel {
                        in_flight: Some(
                            SubmittedModel { retired: s.retired.push(b.pair()), ..s },
                        ),
                        ..self
                    },
                    FlushOutcome::Finished,
                ),
                None => (self.recycled(b.pair()), FlushOutcome::Finished),
            },
        }
    }

    /// What a release reports: that objects were left allocated, where they
    /// were, before anything its flush says.
    pub open spec fn release_report(self, next: FlushOutcome, before: u64) -> ReleaseOutcome {
        match next {
            FlushOutcome::Pending(flush) => ReleaseOutcome::Pending(
                ReleaseModel { flush, before },
            ),
            _ => if self.ledger.leaked != before {
                ReleaseOutcome::Refused(
                    Failure::Poisoned(
                        match self.ledger.poisoned {
                            Some(why) => why,
                            None => ""@,
                        },
                    ),
                )
            } else {
                match next {
                    FlushOutcome::Refused(e) => ReleaseOutcome::Refused(e),
                    _ => ReleaseOutcome::Finished,
                }
            },
        }
    }

    /// The context once a kernel is destroyed: retired into the batch that may
    /// name it, or released at once.
    pub open spec fn without_kernel(self, k: KernelModel) -> ContextModel {
        let retired = RetiredKernel {
            pipeline: k.pipeline,
            layout: k.layout,
            dsl: k.dsl,
            pool: k.pool,
        };
        match self.recorder {
            Some(r) => ContextModel {
                recorder: Some(
                    RecorderModel {
                        plan: r.plan.retired(0, 4),
                        kernels: r.kernels.push(retired),
                        ..r
                    },
                ),
                ..self
            },
            None => match self.in_flight {
                Some(s) => ContextModel {
                    in_flight: Some(SubmittedModel { kernels: s.kernels.push(retired), ..s }),
                    ..self
                },
                None => ContextModel { ledger: self.ledger.released(k.orders()), ..self },
            },
        }
    }

    /// The context once a batch is dropped without being submitted.
    pub open spec fn dropped(self, batch: Option<RecorderModel>) -> ContextModel {
        match batch {
            None => self,
            Some(r) => ContextModel {
                pool: self.pool.recycled_all(r.retired),
                ledger: self.ledger.destroyed_all(
                    self.pool.declined_orders(r.retired),
                ).destroyed_all(kernel_rows(r.kernels)).destroyed_all(
                    staging_rows(r.staging),
                ).destroyed(Order::DestroyFence(r.fence)).destroyed(
                    Order::FreeCommandBuffer(r.commands),
                ),
                ..self
            },
        }
    }

    /// The context and the abandonment once it has begun: a batch in flight is
    /// seen through first, or discharged at once on a poisoned context.
    pub open spec fn abandoning(self) -> (ContextModel, AbandonOutcome) {
        let m = ContextModel { recorder: None, in_flight: None, ..self };
        match self.in_flight {
            None => (m.dropped(self.recorder), AbandonOutcome::Finished),
            Some(s) => if self.ledger.usable() {
                (
                    m,
                    AbandonOutcome::Pending(
                        AbandonModel {
                            flush: FlushModel::Wait(s, ThenModel::Return),
                            parked: self.recorder,
                        },
                    ),
                )
            } else {
                (m.discharged(s).dropped(self.recorder), AbandonOutcome::Finished)
            },
        }
    }

    /// The context and the abandonment after a reply; what the wait returned
    /// does not matter.
    pub open spec fn abandon_after(self, a: AbandonModel, reply: Reply) -> (
        ContextModel,
        AbandonOutcome,
    ) {
        let m = self.flush_after(a.flush, reply).0;
        match self.flush_after(a.flush, reply).1 {
            FlushOutcome::Pending(flush) => (
                m,
                AbandonOutcome::Pending(AbandonModel { flush, parked: a.parked }),
            ),
            _ => (m.dropped(a.parked), AbandonOutcome::Finished),
        }
    }

    /// The context once its pool and its queries are given back; where work may
    /// still be running on the device they stay allocated.
    pub open spec fn drained(self) -> ContextModel {
        if self.ledger.unknown() {
            self
        } else {
            let l = self.ledger.destroyed_all(all_pair_orders(self.pool.pairs));
            ContextModel {
                pool: self.pool.cleared(),
                ledger: match self.queries {
                    Some(q) => l.destroyed(Order::DestroyQueryPool(q)),
                    None => l,
                },
                queries: None,
                ..self
            }
        }
    }
}

/// Whether a buffer or a kernel is released at once or retired, no buffer of a
/// batch that may still run is handed to the pool: the pool grows only where
/// nothing is recorded and nothing is in flight, or by the flush that a free
/// brings on.
pub proof fn law_a_named_pair_is_not_pooled(m: ContextModel, b: BufferModel)
    requires
        !m.quiet(),
        m.freed(b).1 is Finished,
        m.ledger.usable(),
        m.tuning.pool_mode is Retired,
        m.recorder is Some ==> m.recorder->0.plan.retired(b.bytes, 2).over_budget() is None,
    ensures
        m.freed(b).0.pool == m.pool,
        match m.recorder {
            Some(r) => m.freed(b).0.recorder is Some && m.freed(b).0.recorder->0.retired
                == r.retired.push(b.pair()),
            None => m.freed(b).0.in_flight is Some && m.freed(b).0.in_flight->0.retired
                == m.in_flight->0.retired.push(b.pair()),
        },
{
}

impl Context {
    /// Destroy a buffer that this context created. It is refused at once; its
    /// driver objects wait for the batch that may name them.
    pub fn destroy_buffer(&mut self, b: Buffer) -> (r: FlushNext)
        requires
            old(self).wf(),
            b@.ctx_id == old(self)@.fixed.id,
            b@.wf(),
        ensures
            final(self)@.fixed == old(self)@.fixed,
            final(self)@.live == old(self)@.live.remove(b@.id),
            final(self)@.next_buffer == old(self)@.next_buffer,
            final(self).wf(),
            (final(self)@, r@) == old(self)@.freed(b@),
            r matches FlushNext::Pending(f) ==> f@.held_by(final(self)@),
    {
        self.free_buffer(&b)
    }

    fn free_buffer(&mut self, b: &Buffer) -> (r: FlushNext)
        requires
            old(self).wf(),
            b@.ctx_id == old(self)@.fixed.id,
            b@.wf(),
        ensures
            final(self)@.fixed == old(self)@.fixed,
            final(self)@.live == old(self)@.live.remove(b@.id),
            final(self)@.next_buffer == old(self)@.next_buffer,
            final(self).wf(),
            (final(self)@, r@) == old(self)@.freed(b@),
            r matches FlushNext::Pending(f) ==> f@.held_by(final(self)@),
    {
        let allocated: u64 = if b.bytes % 4 == 0 {
            b.bytes
        } else {
            b.bytes / 4 * 4 + 4
        };
        let pair = Pair { buffer: b.buffer, memory: b.memory, allocated };
        self.live_buffers.remove(&b.id);
        proof {
            assert(pair == b@.pair());
            assert(self@.live =~= old(self)@.live.remove(b@.id));
            assert forall|id: u64| #[trigger] self@.live.contains(id) implies id
                < self@.next_buffer by {
                assert(old(self)@.live.contains(id));
            }
        }
        if self.tuning.pool_mode == PoolMode::Immediate {
            self.recycle(pair);
            return FlushNext::Finished;
        }
        match self.recorder.take() {
            Some(mut rec) => {
                rec.retired.push(pair);
                let due: Option<FlushReason> = rec.plan.retire(b.bytes, 2);
                self.recorder = Some(rec);
                proof {
                    let r = old(self)@.recorder->0;
                    assert(all_words(r.retired.push(pair)));
                }
                match due {
                    Some(reason) => self.flush(reason),
                    None => FlushNext::Finished,
                }
            },
            None => match self.in_flight.take() {
                Some(mut sub) => {
                    sub.retired.push(pair);
                    self.in_flight = Some(sub);
                    proof {
                        let s = old(self)@.in_flight->0;
                        assert(all_words(s.retired.push(pair)));
                    }
                    FlushNext::Finished
                },
                None => {
                    self.recycle(pair);
                    FlushNext::Finished
                },
            },
        }
    }

    /// Release a pair that nothing can name any more.
    fn recycle(&mut self, pair: Pair)
        requires
            old(self).wf(),
            pair.allocated >= 4,
        ensures
            final(self)@.same_buffers(old(self)@),
            final(self).wf(),
            final(self)@ == old(self)@.recycled(pair),
    {
        proof {
            law_destroyed_objects_are_counted(self@.ledger, pair_orders(pair.buffer, pair.memory));
        }
        if self.ledger.is_unknown() {
            self.ledger.leak(2);
        } else {
            self.pool.recycle_or_destroy(&mut self.ledger, pair);
            proof {
                self.pool.lemma_wf();
            }
        }
    }

    /// Destroy a buffer, and report where its objects or those of the batch it
    /// was retired into were left allocated, or what the flush it brought on
    /// returned.
    pub fn release_buffer(&mut self, b: Buffer) -> (r: ReleaseNext)
        requires
            old(self).wf(),
            b@.ctx_id == old(self)@.fixed.id,
            b@.wf(),
        ensures
            final(self)@.fixed == old(self)@.fixed,
            final(self)@.live == old(self)@.live.remove(b@.id),
            final(self)@.next_buffer == old(self)@.next_buffer,
            final(self).wf(),
            final(self)@ == old(self)@.freed(b@).0,
            r@ == final(self)@.release_report(old(self)@.freed(b@).1, old(self)@.ledger.leaked),
            r matches ReleaseNext::Pending(p) ==> p@.flush.held_by(final(self)@),
    {
        let before: u64 = self.ledger.leaked();
        let next = self.free_buffer(&b);
        self.report_release(next, before)
    }

    fn report_release(&self, next: FlushNext, before: u64) -> (r: ReleaseNext)
        ensures
            r@ == self@.release_report(next@, before),
    {
        match next {
            FlushNext::Pending(flush) => ReleaseNext::Pending(Release { flush, before }),
            FlushNext::Finished => if self.ledger.leaked() != before {
                ReleaseNext::Refused(AckError::Poisoned(self.ledger.poison_text()))
            } else {
                ReleaseNext::Finished
            },
            FlushNext::Refused(e) => if self.ledger.leaked() != before {
                ReleaseNext::Refused(AckError::Poisoned(self.ledger.poison_text()))
            } else {
                ReleaseNext::Refused(e)
            },
        }
    }

    /// Take the reply to a release's call.
    pub fn advance_release(&mut self, p: Release, reply: Reply) -> (r: ReleaseNext)
        requires
            old(self).wf(),
            p@.flush.held_by(old(self)@),
            p@.flush.next_call().admits(reply),
        ensures
            final(self)@.same_buffers(old(self)@),
            final(self).wf(),
            final(self)@ == old(self)@.flush_after(p@.flush, reply).0,
            r@ == final(self)@.release_report(
                old(self)@.flush_after(p@.flush, reply).1,
                p@.before,
            ),
            r matches ReleaseNext::Pending(q) ==> q@.flush.held_by(final(self)@),
    {
        let before: u64 = p.before;
        let next = self.advance_flush(p.flush, reply);
        self.report_release(next, before)
    }

    /// Destroy a kernel that this context created. Its driver objects wait for
    /// the batch that may name them.
    pub fn destroy_kernel(&mut self, k: Kernel)
        requires
            old(self).wf(),
            k@.ctx_id == old(self)@.fixed.id,
        ensures
            final(self)@.same_buffers(old(self)@),
            final(self).wf(),
            final(self)@ == old(self)@.without_kernel(k@),
    {
        let (pipeline, layout, dsl, pool) = k.objects();
        let retired = RetiredKernel { pipeline, layout, dsl, pool };
        match self.recorder.take() {
            Some(mut rec) => {
                rec.kernels.push(retired);
                rec.plan.retire(0, 4);
                self.recorder = Some(rec);
            },
            None => match self.in_flight.take() {
                Some(mut sub) => {
                    sub.kernels.push(retired);
                    self.in_flight = Some(sub);
                },
                None => {
                    self.ledger.release_kernel(pool, pipeline, layout, dsl);
                },
            },
        }
    }

    /// Drop the recorded batch without submitting it, once the batch in flight
    /// is seen through.
    pub fn discard_recorded_batch(&mut self) -> (r: AbandonNext)
        requires
            old(self).wf(),
        ensures
            final(self)@.same_buffers(old(self)@),
            final(self).wf(),
            (final(self)@, r@) == old(self)@.abandoning(),
            r matches AbandonNext::Pending(a) ==> a@.held_by(final(self)@),
            r is Finished ==> final(self)@.quiet(),
    {
        let parked: Option<Recorder> = self.recorder.take();
        match self.in_flight.take() {
            Some(s) => {
                if self.ledger.is_poisoned() {
                    proof {
                        lemma_discharged(self@, s@);
                    }
                    self.discharge(&s);
                    self.abandon_batch(parked);
                    return AbandonNext::Finished;
                }
                AbandonNext::Pending(Abandon { flush: Flush::Wait(s, Then::Return), parked })
            },
            None => {
                self.abandon_batch(parked);
                AbandonNext::Finished
            },
        }
    }

    /// Take the reply to an abandonment's call.
    pub fn advance_abandon(&mut self, a: Abandon, reply: Reply) -> (r: AbandonNext)
        requires
            old(self).wf(),
            a@.held_by(old(self)@),
            a@.flush.next_call().admits(reply),
        ensures
            final(self)@.same_buffers(old(self)@),
            final(self).wf(),
            (final(self)@, r@) == old(self)@.abandon_after(a@, reply),
            r matches AbandonNext::Pending(b) ==> b@.held_by(final(self)@),
            r is Finished ==> final(self)@.quiet(),
    {
        proof {
            reveal(ContextModel::flush_after);
        }
        let parked: Option<Recorder> = a.parked;
        match self.advance_flush(a.flush, reply) {
            FlushNext::Pending(flush) => AbandonNext::Pending(Abandon { flush, parked }),
            _ => {
                self.abandon_batch(parked);
                AbandonNext::Finished
            },
        }
    }

    /// Drop a batch that was never submitted: its commands never run, so what
    /// was retired into it can go.
    fn abandon_batch(&mut self, batch: Option<Recorder>)
        requires
            old(self).wf(),
            batch matches Some(r) ==> all_words(r@.retired),
        ensures
            final(self)@.same_buffers(old(self)@),
            final(self).wf(),
            final(self)@ == old(self)@.dropped(
                match batch {
                    Some(r) => Some(r@),
                    None => None,
                },
            ),
    {
        match batch {
            Some(rec) => {
                proof {
                    let r = rec@;
                    let l = self@.ledger;
                    let a = l.destroyed_all(self@.pool.declined_orders(r.retired));
                    let b = a.destroyed_all(kernel_rows(r.kernels));
                    law_destroyed_objects_are_counted(
                        l,
                        self@.pool.declined_orders(r.retired),
                    );
                    law_destroyed_objects_are_counted(a, kernel_rows(r.kernels));
                    law_destroyed_objects_are_counted(b, staging_rows(r.staging));
                }
                self.pool.recycle_all(&mut self.ledger, &rec.retired);
                destroy_kernels(&mut self.ledger, &rec.kernels);
                destroy_staging(&mut self.ledger, &rec.staging);
                self.ledger.destroy(Order::DestroyFence(rec.fence));
                self.ledger.destroy(Order::FreeCommandBuffer(rec.commands));
                proof {
                    self.pool.lemma_wf();
                }
            },
            None => {},
        }
    }

    /// Whether the context may be torn down: not while work may still be running
    /// on a device nothing is known of.
    pub fn may_tear_down(&self) -> (r: bool)
        ensures
            r == !self@.ledger.unknown(),
    {
        !self.ledger.is_unknown()
    }

    /// Give the pool and the instrument's queries back, before the device goes;
    /// not where work may still be running on it.
    pub fn drain(&mut self)
        requires
            old(self).wf(),
            old(self)@.quiet(),
        ensures
            final(self)@.same_buffers(old(self)@),
            final(self).wf(),
            final(self)@ == old(self)@.drained(),
    {
        if self.ledger.is_unknown() {
            return;
        }
        proof {
            law_destroyed_objects_are_counted(
                self@.ledger,
                all_pair_orders(self@.pool.pairs),
            );
        }
        self.pool.clear(&mut self.ledger);
        proof {
            self.pool.lemma_wf();
        }
        if let Some(q) = self.queries {
            self.ledger.destroy(Order::DestroyQueryPool(q));
            self.queries = None;
        }
    }
}

/// A freed buffer is no longer live. Its pair waits for the batch that may name
/// it: the open one, else the one in flight; without either it goes back to the
/// pool at once.
pub proof fn law_freed_buffer_waits_for_its_batch(m: ContextModel, b: BufferModel)
    requires
        m.tuning.pool_mode is Retired,
    ensures
        ({
            let (after, out) = m.freed(b);
            let pair = Pair {
                buffer: b.buffer,
                memory: b.memory,
                allocated: b.allocated() as u64,
            };
            &&& m.recorder is Some && m.recorder->0.plan.retired(b.bytes, 2).over_budget() is None
                ==> {
                &&& out is Finished
                &&& after.live == m.live.remove(b.id)
                &&& after.recorder->0.retired == m.recorder->0.retired + seq![pair]
                &&& after.recorder->0.plan == m.recorder->0.plan.retired(b.bytes, 2)
                &&& after.ledger == m.ledger && after.pool == m.pool
                &&& after.in_flight == m.in_flight
            }
            &&& m.recorder is None && m.in_flight is Some ==> {
                &&& out is Finished
                &&& after.live == m.live.remove(b.id)
                &&& after.in_flight->0.retired == m.in_flight->0.retired + seq![pair]
                &&& after.in_flight->0.fence == m.in_flight->0.fence
                &&& after.ledger == m.ledger && after.pool == m.pool
            }
            &&& m.quiet() ==> {
                &&& out is Finished
                &&& after == (ContextModel { live: m.live.remove(b.id), ..m }).recycled(pair)
            }
        }),
{
    let (after, out) = m.freed(b);
    if m.recorder is Some {
        assert(m.recorder->0.retired.push(b.pair()) =~= m.recorder->0.retired + seq![b.pair()]);
    } else if m.in_flight is Some {
        assert(m.in_flight->0.retired.push(b.pair()) =~= m.in_flight->0.retired + seq![b.pair()]);
    }
}

/// A batch over its budget of retired memory is flushed for that.
pub proof fn law_retired_memory_flushes_its_batch(m: ContextModel, b: BufferModel)
    requires
        m.tuning.pool_mode is Retired,
        m.ledger.usable(),
        m.recorder is Some,
        m.recorder->0.plan.retired_bytes + b.bytes > m.recorder->0.plan.max_retired_bytes,
        m.recorder->0.plan.max_retired_bytes < u64::MAX,
    ensures
        m.freed(b).1 is Pending,
        m.freed(b).1->Pending_0.next_call() == (Call::End { commands: m.recorder->0.commands }),
        m.freed(b).0.flushes == m.flushes.update(7, m.flushes[7].wrapping_add(1)),
        m.freed(b).0.live == m.live.remove(b.id),
{
    reveal(ContextModel::flushing);
}

/// A pair that nothing names is pooled where the pool takes it, and else its
/// buffer is destroyed and its memory freed; where the device state is unknown
/// both are left and counted.
pub proof fn law_unnamed_pair_is_pooled_destroyed_or_leaked(m: ContextModel, pair: Pair)
    requires
        m.ledger.live_objects >= i64::MIN + 2,
        m.ledger.leaked + 2 <= u64::MAX,
    ensures
        m.ledger.unknown() ==> m.recycled(pair).ledger.leaked == m.ledger.leaked + 2 && m.recycled(
            pair,
        ).pool == m.pool && m.recycled(pair).ledger.orders == m.ledger.orders,
        !m.ledger.unknown() && m.pool.admits(pair.allocated) ==> m.recycled(pair).ledger
            == m.ledger && m.recycled(pair).pool.pairs == m.pool.pairs + seq![pair],
        !m.ledger.unknown() && !m.pool.admits(pair.allocated) ==> m.recycled(pair).ledger.orders
            == m.ledger.orders + seq![
            Order::DestroyBuffer(pair.buffer),
            Order::FreeMemory(pair.memory),
        ] && m.recycled(pair).pool.pairs == m.pool.pairs,
{
    crate::ledger::law_leaked_objects_are_counted(m.ledger, 2);
    law_destroyed_objects_are_counted(m.ledger, pair_orders(pair.buffer, pair.memory));
    assert(pair_orders(pair.buffer, pair.memory) =~= seq![
        Order::DestroyBuffer(pair.buffer),
        Order::FreeMemory(pair.memory),
    ]);
    assert(m.pool.pairs.push(pair) =~= m.pool.pairs + seq![pair]);
}

/// A destroyed kernel's four objects wait for the batch that may name them: the
/// open one, which counts them, else the one in flight; without either they are
/// released at once.
pub proof fn law_destroyed_kernel_waits_for_its_batch(m: ContextModel, k: KernelModel)
    ensures
        ({
            let after = m.without_kernel(k);
            let gone = RetiredKernel {
                pipeline: k.pipeline,
                layout: k.layout,
                dsl: k.dsl,
                pool: k.pool,
            };
            &&& m.recorder is Some ==> {
                &&& after.recorder->0.kernels == m.recorder->0.kernels + seq![gone]
                &&& after.recorder->0.plan == m.recorder->0.plan.retired(0, 4)
                &&& after.in_flight == m.in_flight && after.ledger == m.ledger
            }
            &&& m.recorder is None && m.in_flight is Some ==> {
                &&& after.in_flight->0.kernels == m.in_flight->0.kernels + seq![gone]
                &&& after.in_flight->0.retired == m.in_flight->0.retired
                &&& after.ledger == m.ledger
            }
            &&& m.quiet() ==> after == (ContextModel {
                ledger: m.ledger.released(
                    seq![
                        Order::DestroyDescriptorPool(k.pool),
                        Order::DestroyPipeline(k.pipeline),
                        Order::DestroyPipelineLayout(k.layout),
                        Order::DestroySetLayout(k.dsl),
                    ],
                ),
                ..m
            })
        }),
{
    let gone = RetiredKernel { pipeline: k.pipeline, layout: k.layout, dsl: k.dsl, pool: k.pool };
    assert(k.orders() =~= seq![
        Order::DestroyDescriptorPool(k.pool),
        Order::DestroyPipeline(k.pipeline),
        Order::DestroyPipelineLayout(k.layout),
        Order::DestroySetLayout(k.dsl),
    ]);
    if m.recorder is Some {
        assert(m.recorder->0.kernels.push(gone) =~= m.recorder->0.kernels + seq![gone]);
    } else if m.in_flight is Some {
        assert(m.in_flight->0.kernels.push(gone) =~= m.in_flight->0.kernels + seq![gone]);
    }
}

/// A release that leaked anything is refused with the context's poison; another
/// one ends as its flush did.
pub proof fn law_release_reports_a_leak(m: ContextModel, next: FlushOutcome, before: u64)
    ensures
        next matches FlushOutcome::Pending(flush) ==> m.release_report(next, before)
            == ReleaseOutcome::Pending(ReleaseModel { flush, before }),
        !(next is Pending) && m.ledger.leaked != before && m.ledger.poisoned is Some
            ==> m.release_report(next, before) == ReleaseOutcome::Refused(
            Failure::Poisoned(m.ledger.poisoned->0),
        ),
        next is Finished && m.ledger.leaked == before ==> m.release_report(next, before)
            == ReleaseOutcome::Finished,
        next matches FlushOutcome::Refused(e) ==> m.ledger.leaked == before ==> m.release_report(
            next,
            before,
        ) == ReleaseOutcome::Refused(e),
{
}

/// A batch that is dropped unsubmitted gives its pairs to the pool and destroys
/// its kernels, its staging pairs, its fence and its command buffer.
pub proof fn law_dropped_batch_releases_everything(m: ContextModel, r: RecorderModel)
    ensures
        m.dropped(None) == m,
        m.dropped(Some(r)).pool == m.pool.recycled_all(r.retired),
        m.dropped(Some(r)).ledger.orders == m.ledger.orders + m.pool.declined_orders(r.retired)
            + kernel_rows(r.kernels) + staging_rows(r.staging) + seq![
            Order::DestroyFence(r.fence),
            Order::FreeCommandBuffer(r.commands),
        ],
{
    let l0 = m.ledger;
    let l1 = l0.destroyed_all(m.pool.declined_orders(r.retired));
    let l2 = l1.destroyed_all(kernel_rows(r.kernels));
    let l3 = l2.destroyed_all(staging_rows(r.staging));
    law_destroyed_objects_are_counted(l0, m.pool.declined_orders(r.retired));
    law_destroyed_objects_are_counted(l1, kernel_rows(r.kernels));
    law_destroyed_objects_are_counted(l2, staging_rows(r.staging));
    assert(l3.destroyed(Order::DestroyFence(r.fence)).destroyed(
        Order::FreeCommandBuffer(r.commands),
    ).orders =~= l3.orders + seq![
        Order::DestroyFence(r.fence),
        Order::FreeCommandBuffer(r.commands),
    ]);
}

/// A context that ends waits for the batch in flight where it can, and then
/// drops the batch it was recording; both are gone from it.
pub proof fn law_ended_context_waits_and_drops(m: ContextModel)
    ensures
        m.abandoning().0.recorder is None,
        m.abandoning().0.in_flight is None,
        m.in_flight is None ==> m.abandoning().1 is Finished && m.abandoning().0
            == (ContextModel { recorder: None, ..m }).dropped(m.recorder),
        m.in_flight is Some && m.ledger.usable() ==> {
            &&& m.abandoning().1 is Pending
            &&& m.abandoning().1->Pending_0.flush == FlushModel::Wait(
                m.in_flight->0,
                ThenModel::Return,
            )
            &&& m.abandoning().1->Pending_0.parked == m.recorder
            &&& m.abandoning().0.ledger == m.ledger
        },
        m.in_flight is Some && !m.ledger.usable() ==> m.abandoning().1 is Finished && m.abandoning(

        ).0 == (ContextModel { recorder: None, in_flight: None, ..m }).discharged(
            m.in_flight->0,
        ).dropped(m.recorder),
{
}

/// A drained context destroys every pooled pair and then its query pool, unless
/// the device state is unknown.
pub proof fn law_drained_context_holds_no_pair(m: ContextModel)
    ensures
        m.ledger.unknown() ==> m.drained() == m,
        !m.ledger.unknown() ==> {
            &&& m.drained().pool.pairs.len() == 0
            &&& m.drained().queries is None
            &&& m.queries is None ==> m.drained().ledger.orders == m.ledger.orders
                + all_pair_orders(m.pool.pairs)
            &&& m.queries matches Some(q) ==> m.drained().ledger.orders == m.ledger.orders
                + all_pair_orders(m.pool.pairs) + seq![Order::DestroyQueryPool(q)]
        },
{
    let row = all_pair_orders(m.pool.pairs);
    law_destroyed_objects_are_counted(m.ledger, row);
    if m.queries is Some {
        let l = m.ledger.destroyed_all(row);
        let q = m.queries->0;
        assert(l.destroyed(Order::DestroyQueryPool(q)).orders =~= l.orders + seq![
            Order::DestroyQueryPool(q),
        ]);
    }
}

/// A context that ends goes on after a reply as the wait it is in does, and drops
/// the batch it kept once the wait is over, however it ended.
pub proof fn law_ending_context_drops_what_it_kept(
    m: ContextModel,
    a: AbandonModel,
    reply: Reply,
)
    ensures
        m.flush_after(a.flush, reply).1 matches FlushOutcome::Pending(flush) ==> m.abandon_after(
            a,
            reply,
        ) == (
            m.flush_after(a.flush, reply).0,
            AbandonOutcome::Pending(AbandonModel { flush, parked: a.parked }),
        ),
        !(m.flush_after(a.flush, reply).1 is Pending) ==> m.abandon_after(a, reply) == (
            m.flush_after(a.flush, reply).0.dropped(a.parked),
            AbandonOutcome::Finished,
        ),
{
}

} // verus!
