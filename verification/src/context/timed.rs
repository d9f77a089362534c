//! A timed dispatch: a submission of its own between two timestamps, after
//! everything recorded before it has run.

use super::flush::{
    law_a_completing_flush_leaves_nothing_behind, law_a_completing_reason_promises_quiet, Flush,
    FlushModel, FlushNext, FlushOutcome,
};
use super::record::arena_text;
use super::{Context, ContextModel};
use crate::batch::FlushReason;
use crate::driver::{Call, Reply};
use crate::error::{AckError, Failure};
use crate::kernel::{Kernel, KernelModel};
use crate::ledger::Order;
use crate::one_shot::{OneShot, ShotNext, ShotOutcome, ShotStage, Work};
use crate::text::append_decimal;
use vstd::prelude::*;
use vstd::string::*;

verus! {

/// What a timed dispatch launches.
#[derive(Clone, Copy, Debug, PartialEq, Eq, Structural)]
pub struct Grid {
    pub x: u32,
    pub y: u32,
    pub z: u32,
    pub repeats: u32,
}

/// A timed dispatch in progress.
#[derive(Debug)]
pub enum Timed {
    /// The recorded batch goes first.
    Flushing(Flush, Grid, Vec<u8>),
    /// The two queries are created, and the set is taken.
    Querying(Grid, u32, Vec<u8>),
    Shooting(OneShot, u64, Vec<u8>),
    Reading(u64),
}

pub ghost enum TimedModel {
    Flushing(FlushModel, Grid, Seq<u8>),
    Querying(Grid, u32, Seq<u8>),
    Shooting(OneShot, u64, Seq<u8>),
    Reading(u64),
}

impl View for Timed {
    type V = TimedModel;

    open spec fn view(&self) -> TimedModel {
        match self {
            Timed::Flushing(f, grid, push) => TimedModel::Flushing(f@, *grid, push@),
            Timed::Querying(grid, set, push) => TimedModel::Querying(*grid, *set, push@),
            Timed::Shooting(shot, queries, push) => TimedModel::Shooting(*shot, *queries, push@),
            Timed::Reading(queries) => TimedModel::Reading(*queries),
        }
    }
}

impl TimedModel {
    pub open spec fn next_call(self) -> Call {
        match self {
            TimedModel::Flushing(f, ..) => f.next_call(),
            TimedModel::Querying(..) => Call::CreateQueryPool { count: 2 },
            TimedModel::Shooting(shot, ..) => shot.next_call(),
            TimedModel::Reading(queries) => Call::ReadTicks { pool: queries },
        }
    }

    /// A timed dispatch is submitted only once nothing is recorded and nothing
    /// is in flight: its duration is its own.
    pub open spec fn held_by(self, m: ContextModel) -> bool {
        match self {
            TimedModel::Flushing(f, ..) => f.held_by(m) && f.promises_quiet(),
            _ => m.ledger.usable() && m.quiet(),
        }
    }
}

impl Timed {
    /// The call to make next.
    pub fn call(&self) -> (r: Call)
        ensures
            r == self@.next_call(),
    {
        match self {
            Timed::Flushing(f, ..) => f.call(),
            Timed::Querying(..) => Call::CreateQueryPool { count: 2 },
            Timed::Shooting(shot, ..) => shot.call(),
            Timed::Reading(queries) => Call::ReadTicks { pool: *queries },
        }
    }
}

/// Where a timed dispatch stands.
#[derive(Debug)]
pub enum TimedNext {
    Pending(Timed),
    /// The dispatch ran and its two stamps were read.
    Finished,
    Refused(AckError),
}

pub ghost enum TimedOutcome {
    Pending(TimedModel),
    Finished,
    Refused(Failure),
}

impl View for TimedNext {
    type V = TimedOutcome;

    open spec fn view(&self) -> TimedOutcome {
        match self {
            TimedNext::Pending(t) => TimedOutcome::Pending(t@),
            TimedNext::Finished => TimedOutcome::Finished,
            TimedNext::Refused(e) => TimedOutcome::Refused(e@),
        }
    }
}

/// The submission of a timed dispatch.
pub open spec fn timed_shot(k: KernelModel, grid: Grid, set: u32, queries: u64) -> OneShot {
    OneShot {
        work: Work::Timed {
            pipeline: k.pipeline,
            layout: k.layout,
            pool: k.pool,
            set,
            queries,
            x: grid.x,
            y: grid.y,
            z: grid.z,
            repeats: grid.repeats,
        },
        stage: ShotStage::Allocate,
    }
}

impl ContextModel {
    /// The context and a timed dispatch once it has its set, which is written.
    pub open spec fn timed_with(self, k: KernelModel, grid: Grid, push: Seq<u8>, set: u32) -> (
        ContextModel,
        TimedOutcome,
    ) {
        (
            ContextModel { ledger: self.ledger.ordered_all(k.binding_orders(set)), ..self },
            TimedOutcome::Pending(TimedModel::Querying(grid, set, push)),
        )
    }

    /// The context, the kernel and a timed dispatch once everything recorded
    /// before it has run: it takes a set, after another flush where it must.
    pub open spec fn timed_ready(self, k: KernelModel, grid: Grid, push: Seq<u8>) -> (
        ContextModel,
        KernelModel,
        TimedOutcome,
    ) {
        let (m, k1, set) = self.acquired(k);
        match set {
            Some(set) => (
                m.timed_with(k1, grid, push, set).0,
                k1,
                m.timed_with(k1, grid, push, set).1,
            ),
            None => {
                let f = m.flushing(FlushReason::DescriptorsExhausted).0;
                let (m2, k2, again) = f.acquired(k1);
                match again {
                    Some(set) => (
                        m2.timed_with(k2, grid, push, set).0,
                        k2,
                        m2.timed_with(k2, grid, push, set).1,
                    ),
                    None => (
                        m2,
                        k2,
                        TimedOutcome::Refused(Failure::Unsupported(arena_text(k.arena()))),
                    ),
                }
            },
        }
    }

    /// The context, the kernel and a timed dispatch once it has begun.
    pub open spec fn timing_of(
        self,
        k: KernelModel,
        push: Seq<u8>,
        groups: Seq<u32>,
        repeats: u32,
    ) -> (ContextModel, KernelModel, TimedOutcome) {
        let grid = Grid { x: groups[0], y: groups[1], z: groups[2], repeats };
        match self.dispatch_refusal(k, push.len(), groups, repeats, "dispatch_timed"@) {
            Some(failure) => (self, k, TimedOutcome::Refused(failure)),
            None => {
                let m = self.flushing(FlushReason::TimedDispatch).0;
                match self.flushing(FlushReason::TimedDispatch).1 {
                    FlushOutcome::Pending(f) => (
                        m,
                        k,
                        TimedOutcome::Pending(TimedModel::Flushing(f, grid, push)),
                    ),
                    FlushOutcome::Finished => m.timed_ready(k, grid, push),
                    FlushOutcome::Refused(e) => (m, k, TimedOutcome::Refused(e)),
                }
            },
        }
    }

    /// The context, the kernel and a timed dispatch after a reply.
    pub open spec fn timed_after(self, k: KernelModel, t: TimedModel, reply: Reply) -> (
        ContextModel,
        KernelModel,
        TimedOutcome,
    ) {
        match t {
            TimedModel::Flushing(f, grid, push) => {
                let m = self.flush_after(f, reply).0;
                match self.flush_after(f, reply).1 {
                    FlushOutcome::Pending(g) => (
                        m,
                        k,
                        TimedOutcome::Pending(TimedModel::Flushing(g, grid, push)),
                    ),
                    FlushOutcome::Finished => m.timed_ready(k, grid, push),
                    FlushOutcome::Refused(e) => (m, k, TimedOutcome::Refused(e)),
                }
            },
            TimedModel::Querying(grid, set, push) => match reply {
                Reply::Handle(queries) => (
                    ContextModel { ledger: self.ledger.created(), ..self },
                    k,
                    TimedOutcome::Pending(
                        TimedModel::Shooting(timed_shot(k, grid, set, queries), queries, push),
                    ),
                ),
                Reply::Failed(code) => (self, k, TimedOutcome::Refused(Failure::Vulkan(code))),
                _ => (self, k, TimedOutcome::Pending(t)),
            },
            TimedModel::Shooting(shot, queries, push) => {
                let (l, next) = shot.after(self.ledger, push, reply);
                match next {
                    ShotOutcome::Pending(s) => (
                        ContextModel { ledger: l, ..self },
                        k,
                        TimedOutcome::Pending(TimedModel::Shooting(s, queries, push)),
                    ),
                    ShotOutcome::Finished => (
                        ContextModel { ledger: l, ..self },
                        k,
                        TimedOutcome::Pending(TimedModel::Reading(queries)),
                    ),
                    ShotOutcome::Refused(e) => (
                        ContextModel {
                            ledger: l.released(seq![Order::DestroyQueryPool(queries)]),
                            ..self
                        },
                        k,
                        TimedOutcome::Refused(e),
                    ),
                }
            },
            TimedModel::Reading(queries) => (
                ContextModel {
                    ledger: self.ledger.destroyed(Order::DestroyQueryPool(queries)),
                    ..self
                },
                k,
                match reply {
                    Reply::Failed(code) => TimedOutcome::Refused(Failure::Vulkan(code)),
                    _ => TimedOutcome::Finished,
                },
            ),
        }
    }
}

/// A flush of a quiet context has nothing to wait for.
proof fn lemma_quiet_flush(m: ContextModel, reason: FlushReason)
    requires
        m.quiet(),
        m.ledger.usable(),
    ensures
        m.flushing(reason).1 is Finished,
        m.flushing(reason).0.quiet(),
        m.flushing(reason).0.ledger == m.ledger,
{
    reveal(ContextModel::flushing);
}

impl Context {
    /// Write the kernel's binding into the set a timed dispatch takes.
    fn start_timed(&mut self, kernel: &Kernel, grid: Grid, push: Vec<u8>, set: u32) -> (r:
        TimedNext)
        requires
            old(self).wf(),
            old(self)@.quiet(),
            old(self)@.ledger.usable(),
        ensures
            final(self)@.same_buffers(old(self)@),
            final(self).wf(),
            (final(self)@, r@) == old(self)@.timed_with(kernel@, grid, push@, set),
            r matches TimedNext::Pending(t) ==> t@.held_by(final(self)@),
    {
        kernel.write_set(&mut self.ledger, set);
        TimedNext::Pending(Timed::Querying(grid, set, push))
    }

    /// Take a set for a timed dispatch.
    fn ready_timed(&mut self, kernel: &mut Kernel, grid: Grid, push: Vec<u8>) -> (r: TimedNext)
        requires
            old(self).wf(),
            old(kernel)@.wf(),
            old(self)@.quiet(),
            old(self)@.ledger.usable(),
        ensures
            final(self)@.same_buffers(old(self)@),
            final(kernel)@.same_build(old(kernel)@),
            final(self).wf(),
            final(kernel)@.wf(),
            (final(self)@, final(kernel)@, r@) == old(self)@.timed_ready(
                old(kernel)@,
                grid,
                push@,
            ),
            r matches TimedNext::Pending(t) ==> t@.held_by(final(self)@),
    {
        match self.acquire_set(kernel) {
            Some(set) => self.start_timed(kernel, grid, push, set),
            None => {
                proof {
                    lemma_quiet_flush(self@, FlushReason::DescriptorsExhausted);
                }
                self.flush(FlushReason::DescriptorsExhausted);
                match self.acquire_set(kernel) {
                    Some(set) => self.start_timed(kernel, grid, push, set),
                    None => {
                        let mut s = String::from_str("the kernel's descriptor arena of ");
                        append_decimal(&mut s, kernel.descriptor_sets() as u64);
                        s.append(" set(s) is exhausted after a flush");
                        TimedNext::Refused(AckError::Unsupported(s))
                    },
                }
            },
        }
    }

    /// Dispatch `repeats` back-to-back launches of `kernel`, alone and fenced,
    /// between two timestamps. Everything recorded before is submitted and
    /// waited for first, so that the duration is this dispatch's.
    pub fn dispatch_timed(
        &mut self,
        kernel: &mut Kernel,
        push: &[u8],
        groups: [u32; 3],
        repeats: u32,
    ) -> (r: TimedNext)
        requires
            old(self).wf(),
            old(kernel)@.wf(),
        ensures
            final(self)@.same_buffers(old(self)@),
            final(kernel)@.same_build(old(kernel)@),
            final(self).wf(),
            final(kernel)@.wf(),
            (final(self)@, final(kernel)@, r@) == old(self)@.timing_of(
                old(kernel)@,
                push@,
                groups@,
                repeats,
            ),
            r matches TimedNext::Pending(t) ==> t@.held_by(final(self)@),
    {
        match self.check_dispatch(kernel, push.len(), &groups, repeats, "dispatch_timed") {
            Ok(()) => {},
            Err(e) => {
                return TimedNext::Refused(e);
            },
        }
        let grid = Grid { x: groups[0], y: groups[1], z: groups[2], repeats };
        let mut block: Vec<u8> = Vec::new();
        block.extend_from_slice(push);
        proof {
            assert(block@ =~= push@);
            law_a_completing_reason_promises_quiet(self@, FlushReason::TimedDispatch);
        }
        match self.flush(FlushReason::TimedDispatch) {
            FlushNext::Pending(f) => TimedNext::Pending(Timed::Flushing(f, grid, block)),
            FlushNext::Finished => self.ready_timed(kernel, grid, block),
            FlushNext::Refused(e) => TimedNext::Refused(e),
        }
    }

    /// Take the reply to a timed dispatch's call.
    pub fn advance_timed(&mut self, kernel: &mut Kernel, t: Timed, reply: Reply) -> (r: TimedNext)
        requires
            old(self).wf(),
            old(kernel)@.wf(),
            t@.held_by(old(self)@),
            t@.next_call().admits(reply),
        ensures
            final(self)@.same_buffers(old(self)@),
            final(kernel)@.same_build(old(kernel)@),
            final(self).wf(),
            final(kernel)@.wf(),
            (final(self)@, final(kernel)@, r@) == old(self)@.timed_after(
                old(kernel)@,
                t@,
                reply,
            ),
            r matches TimedNext::Pending(u) ==> u@.held_by(final(self)@),
    {
        match t {
            Timed::Flushing(f, grid, push) => {
                proof {
                    law_a_completing_flush_leaves_nothing_behind(self@, f@, reply);
                }
                match self.advance_flush(f, reply) {
                    FlushNext::Pending(g) => TimedNext::Pending(Timed::Flushing(g, grid, push)),
                    FlushNext::Finished => self.ready_timed(kernel, grid, push),
                    FlushNext::Refused(e) => TimedNext::Refused(e),
                }
            },
            Timed::Querying(grid, set, push) => match reply {
                Reply::Handle(queries) => {
                    self.ledger.create();
                    let (pipeline, layout, _, pool) = kernel.objects();
                    let shot = OneShot {
                        work: Work::Timed {
                            pipeline,
                            layout,
                            pool,
                            set,
                            queries,
                            x: grid.x,
                            y: grid.y,
                            z: grid.z,
                            repeats: grid.repeats,
                        },
                        stage: ShotStage::Allocate,
                    };
                    TimedNext::Pending(Timed::Shooting(shot, queries, push))
                },
                Reply::Failed(code) => TimedNext::Refused(AckError::Vulkan(code)),
                _ => TimedNext::Pending(Timed::Querying(grid, set, push)),
            },
            Timed::Shooting(shot, queries, push) => match shot.advance(
                &mut self.ledger,
                push.as_slice(),
                reply,
            ) {
                ShotNext::Pending(s) => TimedNext::Pending(Timed::Shooting(s, queries, push)),
                ShotNext::Finished => TimedNext::Pending(Timed::Reading(queries)),
                ShotNext::Refused(e) => {
                    self.ledger.release_queries(queries);
                    TimedNext::Refused(e)
                },
            },
            Timed::Reading(queries) => {
                self.ledger.destroy(Order::DestroyQueryPool(queries));
                match reply {
                    Reply::Failed(code) => TimedNext::Refused(AckError::Vulkan(code)),
                    _ => TimedNext::Finished,
                }
            },
        }
    }
}

/// A timed dispatch has a query pool of two, and records its kernel, set and
/// grid as they were asked for.
pub proof fn law_timed_submission_is_the_request(
    k: KernelModel,
    grid: Grid,
    set: u32,
    queries: u64,
    push: Seq<u8>,
)
    ensures
        TimedModel::Querying(grid, set, push).next_call() == (Call::CreateQueryPool { count: 2 }),
        TimedModel::Reading(queries).next_call() == (Call::ReadTicks { pool: queries }),
        timed_shot(k, grid, set, queries).stage is Allocate,
        timed_shot(k, grid, set, queries).work == (Work::Timed {
            pipeline: k.pipeline,
            layout: k.layout,
            pool: k.pool,
            set,
            queries,
            x: grid.x,
            y: grid.y,
            z: grid.z,
            repeats: grid.repeats,
        }),
{
}

/// A timed dispatch is refused as a dispatch is, and changes nothing then; else
/// what was recorded is flushed for it, under its own reason. On a quiet context
/// it takes a set, has its bindings written into it, and asks for its queries.
pub proof fn law_timed_dispatch_runs_alone(
    m: ContextModel,
    k: KernelModel,
    push: Seq<u8>,
    groups: Seq<u32>,
    repeats: u32,
)
    requires
        groups.len() == 3,
        m.flushes.len() == 9,
    ensures
        ({
            let refusal = m.dispatch_refusal(k, push.len(), groups, repeats, "dispatch_timed"@);
            let (after, k2, out) = m.timing_of(k, push, groups, repeats);
            let grid = Grid { x: groups[0], y: groups[1], z: groups[2], repeats };
            &&& refusal matches Some(e) ==> (after, k2, out) == (m, k, TimedOutcome::Refused(e))
            &&& refusal is None && m.recorder is Some ==> {
                &&& out is Pending
                &&& out->Pending_0 is Flushing
                &&& out->Pending_0.next_call() == (Call::End { commands: m.recorder->0.commands })
                &&& after.flushes == m.flushes.update(2, m.flushes[2].wrapping_add(1))
                &&& k2 == k
            }
            &&& refusal is None && m.quiet() && m.tuning.descriptor_mode is Arena && k.watermark(
                m.batch_gen.wrapping_add(1),
            ) < k.arena() ==> {
                let set = k.watermark(m.batch_gen.wrapping_add(1));
                &&& out == TimedOutcome::Pending(TimedModel::Querying(grid, set, push))
                &&& after.ledger.orders == m.ledger.orders + k.binding_orders(set)
                &&& k2.watermark(m.batch_gen.wrapping_add(1)) == set + 1
            }
        }),
{
    reveal(ContextModel::flushing);
    assert(0 * k.arena() == 0) by (nonlinear_arith);
    let m1 = m.flushing(FlushReason::TimedDispatch).0;
    let (m2, k1, set) = m1.acquired(k);
    if set is Some {
        assert(k1.binding_orders(set->0) =~= k.binding_orders(set->0));
    }
}

/// The query pool of a timed dispatch is destroyed however the dispatch ends; a
/// failure to make it, to run, or to read its ticks is reported with its own
/// code.
pub proof fn law_timed_dispatch_gives_up_its_queries(
    m: ContextModel,
    k: KernelModel,
    grid: Grid,
    set: u32,
    push: Seq<u8>,
    queries: u64,
    code: i32,
)
    ensures
        m.timed_after(k, TimedModel::Querying(grid, set, push), Reply::Failed(code)) == (
            m,
            k,
            TimedOutcome::Refused(Failure::Vulkan(code)),
        ),
        ({
            let (made, k1, out) = m.timed_after(
                k,
                TimedModel::Querying(grid, set, push),
                Reply::Handle(queries),
            );
            &&& out == TimedOutcome::Pending(
                TimedModel::Shooting(timed_shot(k, grid, set, queries), queries, push),
            )
            &&& k1 == k
            &&& m.ledger.live_objects < i64::MAX ==> made.ledger.live_objects
                == m.ledger.live_objects + 1
        }),
        ({
            let read = m.timed_after(k, TimedModel::Reading(queries), Reply::Done);
            let failed = m.timed_after(k, TimedModel::Reading(queries), Reply::Failed(code));
            &&& read.2 == TimedOutcome::Finished
            &&& failed.2 == TimedOutcome::Refused(Failure::Vulkan(code))
            &&& read.0.ledger.orders == m.ledger.orders + seq![Order::DestroyQueryPool(queries)]
            &&& failed.0.ledger.orders == m.ledger.orders + seq![Order::DestroyQueryPool(queries)]
        }),
{
    assert(m.ledger.destroyed(Order::DestroyQueryPool(queries)).orders =~= m.ledger.orders + seq![
        Order::DestroyQueryPool(queries),
    ]);
}

} // verus!
