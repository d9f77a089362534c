//! One command buffer, recorded, submitted and waited for. Before the submission
//! succeeds every failure frees what was created. After it a failed wait
//! quiesces the device: an idle device releases the fence and the command
//! buffer, a lost one releases them and poisons the context, and anything else
//! leaves them allocated and poisons the context.

use crate::driver::{Call, Reply};
use crate::error::{
    outcome, outcome_text, result_name, result_text, AckError, Failure, ERROR_DEVICE_LOST,
};
use crate::ledger::{launches, Ledger, LedgerModel, Order};
use crate::words::{lemma_bytes_round_trip, read_word, word_at, word_value, words_bytes};
use vstd::prelude::*;
use vstd::string::*;

verus! {

/// What a submission of its own records.
#[derive(Clone, Copy, Debug, PartialEq, Eq, Structural)]
pub enum Work {
    Copy { source: u64, target: u64, bytes: u64 },
    /// A dispatch between two timestamps.
    Timed {
        pipeline: u64,
        layout: u64,
        pool: u64,
        set: u32,
        queries: u64,
        x: u32,
        y: u32,
        z: u32,
        repeats: u32,
    },
}

/// The commands that push a block of constants, word for word.
pub open spec fn push_orders(commands: u64, layout: u64, push: Seq<u8>) -> Seq<Order> {
    Seq::new(
        push.len() / 4,
        |i: int|
            Order::PushConstants {
                commands,
                layout,
                at: i as u32,
                word: word_at(push, i) as u32,
            },
    )
}

/// The words that a row of commands pushes.
pub open spec fn pushed_words(row: Seq<Order>) -> Seq<u32> {
    Seq::new(row.len(), |i: int| row[i]->word)
}

/// The words pushed for a block of whole words are the block, each at its own
/// place in it.
pub proof fn law_pushed_words_are_the_block(commands: u64, layout: u64, push: Seq<u8>)
    requires
        push.len() % 4 == 0,
        push.len() <= u32::MAX,
    ensures
        words_bytes(pushed_words(push_orders(commands, layout, push))) == push,
        forall|i: int|
            0 <= i < push.len() / 4 ==> (#[trigger] push_orders(commands, layout, push)[i])->at
                == i,
{
    let words = pushed_words(push_orders(commands, layout, push));
    assert forall|j: int| 0 <= j < push.len() implies words_bytes(words)[j] == push[j] by {
        let i = j / 4;
        let four = push.subrange(4 * i, 4 * i + 4);
        lemma_bytes_round_trip(four);
        assert(words[i] == word_value(four) as u32);
        assert(four[j % 4] == push[j]);
    }
    assert(words_bytes(words) =~= push);
}

/// The commands that bind a kernel and push its constants.
pub open spec fn launch_orders(
    commands: u64,
    pipeline: u64,
    layout: u64,
    pool: u64,
    set: u32,
    push: Seq<u8>,
) -> Seq<Order> {
    seq![Order::BindKernel { commands, pipeline, layout, pool, set }] + push_orders(
        commands,
        layout,
        push,
    )
}

impl Work {
    /// The commands this work records; a dispatch pushes its constants.
    pub open spec fn orders(self, commands: u64, push: Seq<u8>) -> Seq<Order> {
        match self {
            Work::Copy { source, target, bytes } => seq![
                Order::Copy { commands, source, target, bytes },
            ],
            Work::Timed { pipeline, layout, pool, set, queries, x, y, z, repeats } => seq![
                Order::ResetQueries { commands, pool: queries, count: 2 },
            ] + launch_orders(commands, pipeline, layout, pool, set, push) + seq![
                Order::Stamp { commands, pool: queries, query: 0, top: true },
            ] + launches(commands, x, y, z, repeats as nat) + seq![
                Order::Stamp { commands, pool: queries, query: 1, top: false },
            ],
        }
    }
}

#[derive(Clone, Copy, Debug, PartialEq, Eq, Structural)]
pub enum ShotStage {
    Allocate,
    Begin { commands: u64 },
    End { commands: u64 },
    Fence { commands: u64 },
    Submit { commands: u64, fence: u64 },
    Wait { commands: u64, fence: u64 },
    Idle { commands: u64, fence: u64, wait: i32 },
}

/// One submission of its own.
#[derive(Clone, Copy, Debug, PartialEq, Eq, Structural)]
pub struct OneShot {
    pub work: Work,
    pub stage: ShotStage,
}

/// Where a submission stands after a reply.
#[derive(Debug)]
pub enum ShotNext {
    Pending(OneShot),
    Finished,
    Refused(AckError),
}

pub ghost enum ShotOutcome {
    Pending(OneShot),
    Finished,
    Refused(Failure),
}

impl View for ShotNext {
    type V = ShotOutcome;

    open spec fn view(&self) -> ShotOutcome {
        match self {
            ShotNext::Pending(s) => ShotOutcome::Pending(*s),
            ShotNext::Finished => ShotOutcome::Finished,
            ShotNext::Refused(e) => ShotOutcome::Refused(e@),
        }
    }
}

/// Whether a failed wait, and what the idle after it returned, establish that
/// the device is lost.
pub open spec fn is_loss(wait: i32, idle: Option<i32>) -> bool {
    wait == ERROR_DEVICE_LOST || idle == Some(ERROR_DEVICE_LOST)
}

pub open spec fn lost_text(wait: i32, idle: Option<i32>) -> Seq<char> {
    "device lost after a failed fence wait (wait "@ + result_name(wait) + ", idle "@ + outcome_text(
        idle,
    ) + "); nothing runs on it again"@
}

pub open spec fn unknown_text(wait: i32, idle: i32) -> Seq<char> {
    "fence wait failed ("@ + result_name(wait) + ") and the device could not be quiesced ("@
        + result_name(idle)
        + "): the submission may still be running, its fence and command buffer stay allocated, and this context refuses every later call"@
}

/// The failure code of a reply, where it is one.
pub open spec fn failure_of(reply: Reply) -> Option<i32> {
    match reply {
        Reply::Failed(code) => Some(code),
        _ => None,
    }
}

impl OneShot {
    pub open spec fn next_call(self) -> Call {
        match self.stage {
            ShotStage::Allocate => Call::AllocateCommandBuffer,
            ShotStage::Begin { commands } => Call::Begin { commands },
            ShotStage::End { commands } => Call::End { commands },
            ShotStage::Fence { .. } => Call::CreateFence,
            ShotStage::Submit { commands, fence } => Call::Submit { commands, fence },
            ShotStage::Wait { fence, .. } => Call::WaitFence { fence },
            ShotStage::Idle { .. } => Call::WaitIdle,
        }
    }

    pub open spec fn at(self, stage: ShotStage) -> OneShot {
        OneShot { stage, ..self }
    }

    /// The ledger and the submission after a reply; `push` is the push block of a
    /// dispatch.
    pub open spec fn after(self, l: LedgerModel, push: Seq<u8>, reply: Reply) -> (
        LedgerModel,
        ShotOutcome,
    ) {
        match (self.stage, reply) {
            (ShotStage::Allocate, Reply::Handle(commands)) => (
                l.created(),
                ShotOutcome::Pending(self.at(ShotStage::Begin { commands })),
            ),
            (ShotStage::Allocate, Reply::Failed(code)) => (
                l,
                ShotOutcome::Refused(Failure::Vulkan(code)),
            ),
            (ShotStage::Begin { commands }, Reply::Done) => (
                l.ordered_all(self.work.orders(commands, push)),
                ShotOutcome::Pending(self.at(ShotStage::End { commands })),
            ),
            (ShotStage::End { commands }, Reply::Done) => (
                l,
                ShotOutcome::Pending(self.at(ShotStage::Fence { commands })),
            ),
            (ShotStage::Fence { commands }, Reply::Handle(fence)) => (
                l.created(),
                ShotOutcome::Pending(self.at(ShotStage::Submit { commands, fence })),
            ),
            (ShotStage::Begin { commands }, Reply::Failed(code))
            | (ShotStage::End { commands }, Reply::Failed(code))
            | (ShotStage::Fence { commands }, Reply::Failed(code)) => (
                l.destroyed(Order::FreeCommandBuffer(commands)),
                ShotOutcome::Refused(Failure::Vulkan(code)),
            ),
            (ShotStage::Submit { commands, fence }, Reply::Done) => (
                l,
                ShotOutcome::Pending(self.at(ShotStage::Wait { commands, fence })),
            ),
            (ShotStage::Submit { commands, fence }, Reply::Failed(code)) => (
                l.destroyed(Order::DestroyFence(fence)).destroyed(
                    Order::FreeCommandBuffer(commands),
                ),
                ShotOutcome::Refused(Failure::Vulkan(code)),
            ),
            (ShotStage::Wait { commands, fence }, Reply::Done) => (
                l.torn_down(fence, commands),
                ShotOutcome::Finished,
            ),
            (ShotStage::Wait { commands, fence }, Reply::Failed(wait)) => (
                l,
                ShotOutcome::Pending(self.at(ShotStage::Idle { commands, fence, wait })),
            ),
            (ShotStage::Idle { commands, fence, wait }, _) => {
                let idle = failure_of(reply);
                if is_loss(wait, idle) {
                    (
                        l.poisoned_by(lost_text(wait, idle), true).torn_down(fence, commands),
                        ShotOutcome::Refused(Failure::Vulkan(ERROR_DEVICE_LOST)),
                    )
                } else {
                    match idle {
                        None => (
                            l.torn_down(fence, commands),
                            ShotOutcome::Refused(Failure::Vulkan(wait)),
                        ),
                        Some(code) => (
                            l.poisoned_by(unknown_text(wait, code), false).leaked(2),
                            ShotOutcome::Refused(Failure::Poisoned(unknown_text(wait, code))),
                        ),
                    }
                }
            },
            _ => (l, ShotOutcome::Pending(self)),
        }
    }

    /// How many objects the submission owns.
    pub open spec fn owned(self) -> int {
        match self.stage {
            ShotStage::Allocate => 0,
            ShotStage::Begin { .. } | ShotStage::End { .. } | ShotStage::Fence { .. } => 1,
            _ => 2,
        }
    }

    /// A submission of `work`, refused on a poisoned context.
    pub fn new(ledger: &Ledger, work: Work) -> (r: Result<Self, AckError>)
        ensures
            match r {
                Ok(s) => ledger@.usable() && s == (OneShot { work, stage: ShotStage::Allocate }),
                Err(e) => ledger@.poisoned is Some && e@ == Failure::Poisoned(ledger@.poisoned->0),
            },
    {
        match ledger.check_live() {
            Ok(()) => Ok(OneShot { work, stage: ShotStage::Allocate }),
            Err(e) => Err(e),
        }
    }

    /// The call to make next.
    pub fn call(&self) -> (r: Call)
        ensures
            r == self.next_call(),
    {
        match self.stage {
            ShotStage::Allocate => Call::AllocateCommandBuffer,
            ShotStage::Begin { commands } => Call::Begin { commands },
            ShotStage::End { commands } => Call::End { commands },
            ShotStage::Fence { .. } => Call::CreateFence,
            ShotStage::Submit { commands, fence } => Call::Submit { commands, fence },
            ShotStage::Wait { fence, .. } => Call::WaitFence { fence },
            ShotStage::Idle { .. } => Call::WaitIdle,
        }
    }

    /// Take the reply to the call. `push` is the push block of a dispatch.
    pub fn advance(self, ledger: &mut Ledger, push: &[u8], reply: Reply) -> (r: ShotNext)
        requires
            self.next_call().admits(reply),
            old(ledger)@.wf(),
            old(ledger)@.usable(),
        ensures
            (final(ledger)@, r@) == self.after(old(ledger)@, push@, reply),
            final(ledger)@.wf(),
            r is Pending ==> final(ledger)@.usable(),
    {
        let work = self.work;
        match (self.stage, reply) {
            (ShotStage::Allocate, Reply::Handle(commands)) => {
                ledger.create();
                ShotNext::Pending(OneShot { work, stage: ShotStage::Begin { commands } })
            },
            (ShotStage::Allocate, Reply::Failed(code)) => ShotNext::Refused(AckError::Vulkan(code)),
            (ShotStage::Begin { commands }, Reply::Done) => {
                record_work(ledger, work, commands, push);
                ShotNext::Pending(OneShot { work, stage: ShotStage::End { commands } })
            },
            (ShotStage::End { commands }, Reply::Done) => ShotNext::Pending(
                OneShot { work, stage: ShotStage::Fence { commands } },
            ),
            (ShotStage::Fence { commands }, Reply::Handle(fence)) => {
                ledger.create();
                ShotNext::Pending(OneShot { work, stage: ShotStage::Submit { commands, fence } })
            },
            (ShotStage::Begin { commands }, Reply::Failed(code))
            | (ShotStage::End { commands }, Reply::Failed(code))
            | (ShotStage::Fence { commands }, Reply::Failed(code)) => {
                ledger.destroy(Order::FreeCommandBuffer(commands));
                ShotNext::Refused(AckError::Vulkan(code))
            },
            (ShotStage::Submit { commands, fence }, Reply::Done) => ShotNext::Pending(
                OneShot { work, stage: ShotStage::Wait { commands, fence } },
            ),
            (ShotStage::Submit { commands, fence }, Reply::Failed(code)) => {
                ledger.destroy(Order::DestroyFence(fence));
                ledger.destroy(Order::FreeCommandBuffer(commands));
                ShotNext::Refused(AckError::Vulkan(code))
            },
            (ShotStage::Wait { commands, fence }, Reply::Done) => {
                ledger.release_submission(fence, commands);
                ShotNext::Finished
            },
            (ShotStage::Wait { commands, fence }, Reply::Failed(wait)) => ShotNext::Pending(
                OneShot { work, stage: ShotStage::Idle { commands, fence, wait } },
            ),
            (ShotStage::Idle { commands, fence, wait }, _) => {
                let idle: Option<i32> = match reply {
                    Reply::Failed(code) => Some(code),
                    _ => None,
                };
                let lost: bool = wait == ERROR_DEVICE_LOST || match idle {
                    Some(code) => code == ERROR_DEVICE_LOST,
                    None => false,
                };
                if lost {
                    let mut why = String::from_str("device lost after a failed fence wait (wait ");
                    let name = result_text(wait);
                    why.append(name.as_str());
                    why.append(", idle ");
                    let after = outcome(idle);
                    why.append(after.as_str());
                    why.append("); nothing runs on it again");
                    ledger.poison(why, true);
                    ledger.release_submission(fence, commands);
                    return ShotNext::Refused(AckError::Vulkan(ERROR_DEVICE_LOST));
                }
                match idle {
                    None => {
                        ledger.release_submission(fence, commands);
                        ShotNext::Refused(AckError::Vulkan(wait))
                    },
                    Some(code) => {
                        let mut why = String::from_str("fence wait failed (");
                        let name = result_text(wait);
                        why.append(name.as_str());
                        why.append(") and the device could not be quiesced (");
                        let other = result_text(code);
                        why.append(other.as_str());
                        why.append(
                            "): the submission may still be running, its fence and command buffer stay allocated, and this context refuses every later call",
                        );
                        ledger.poison(why.clone(), false);
                        ledger.leak(2);
                        ShotNext::Refused(AckError::Poisoned(why))
                    },
                }
            },
            _ => ShotNext::Pending(self),
        }
    }
}

/// Queue the commands a submission records.
fn record_work(ledger: &mut Ledger, work: Work, commands: u64, push: &[u8])
    ensures
        final(ledger)@ == old(ledger)@.ordered_all(work.orders(commands, push@)),
{
    let ghost start = ledger@;
    match work {
        Work::Copy { source, target, bytes } => {
            ledger.order(Order::Copy { commands, source, target, bytes });
        },
        Work::Timed { pipeline, layout, pool, set, queries, x, y, z, repeats } => {
            ledger.order(Order::ResetQueries { commands, pool: queries, count: 2 });
            record_launch(ledger, commands, pipeline, layout, pool, set, push);
            ledger.order(Order::Stamp { commands, pool: queries, query: 0, top: true });
            ledger.launch(commands, x, y, z, repeats);
            ledger.order(Order::Stamp { commands, pool: queries, query: 1, top: false });
        },
    }
    proof {
        assert(ledger@ =~= start.ordered_all(work.orders(commands, push@)));
    }
}

/// Queue the commands that bind a kernel and push its constants.
pub(crate) fn record_launch(
    ledger: &mut Ledger,
    commands: u64,
    pipeline: u64,
    layout: u64,
    pool: u64,
    set: u32,
    push: &[u8],
)
    ensures
        final(ledger)@ == old(ledger)@.ordered_all(
            launch_orders(commands, pipeline, layout, pool, set, push@),
        ),
{
    let ghost start = ledger@;
    ledger.order(Order::BindKernel { commands, pipeline, layout, pool, set });
    let ghost bound = ledger@;
    let ghost row = push_orders(commands, layout, push@);
    let mut i: usize = 0;
    proof {
        assert(ledger@ =~= bound.ordered_all(row.take(0)));
    }
    while i < push.len() / 4
        invariant
            i <= push.len() / 4,
            row == push_orders(commands, layout, push@),
            ledger@ == bound.ordered_all(row.take(i as int)),
        decreases push.len() / 4 - i,
    {
        ledger.order(
            Order::PushConstants { commands, layout, at: i as u32, word: read_word(push, i) },
        );
        i += 1;
        proof {
            assert(ledger@ =~= bound.ordered_all(row.take(i as int)));
        }
    }
    proof {
        assert(row.take(row.len() as int) =~= row);
        assert(ledger@ =~= start.ordered_all(
            launch_orders(commands, pipeline, layout, pool, set, push@),
        ));
    }
}

/// A submission of its own leaves no object behind that it does not count: it
/// ends with as many live objects as before it began, or poisons the context
/// and counts the two it leaves.
pub proof fn law_one_shot_accounts_for_its_objects(
    s: OneShot,
    l: LedgerModel,
    push: Seq<u8>,
    reply: Reply,
    before: int,
)
    requires
        s.next_call().admits(reply),
        l.usable(),
        l.wf(),
        i64::MIN + 2 <= before <= i64::MAX - 2,
        l.live_objects == before + s.owned(),
    ensures
        match s.after(l, push, reply).1 {
            ShotOutcome::Pending(next) => s.after(l, push, reply).0.live_objects == before
                + next.owned(),
            _ => s.after(l, push, reply).0.live_objects == before + s.after(
                l,
                push,
                reply,
            ).0.leaked,
        },
{
    reveal_with_fuel(LedgerModel::leaked, 3);
}

/// A failed wait poisons the context in every case but one: the device was
/// quiesced, and neither call reported it lost.
pub proof fn law_only_a_quiesced_wait_keeps_the_context(
    s: OneShot,
    l: LedgerModel,
    push: Seq<u8>,
    reply: Reply,
)
    requires
        s.stage is Idle,
        s.next_call().admits(reply),
        l.usable(),
    ensures
        s.after(l, push, reply).0.usable() <==> (reply is Done && s.stage->Idle_wait
            != ERROR_DEVICE_LOST),
{
    reveal_with_fuel(LedgerModel::leaked, 3);
}

/// A kernel's launch binds its pipeline with one of its sets and then pushes the
/// words of its block in order, all on one command buffer and one layout.
pub proof fn law_launch_binds_and_pushes(
    commands: u64,
    pipeline: u64,
    layout: u64,
    pool: u64,
    set: u32,
    push: Seq<u8>,
    i: int,
)
    requires
        0 <= i < push.len() / 4,
        push.len() <= u32::MAX,
    ensures
        ({
            let row = launch_orders(commands, pipeline, layout, pool, set, push);
            &&& row.len() == 1 + push.len() / 4
            &&& row[0] == Order::BindKernel { commands, pipeline, layout, pool, set }
            &&& row[1 + i] == Order::PushConstants {
                commands,
                layout,
                at: i as u32,
                word: word_at(push, i) as u32,
            }
        }),
{
}

/// A copy is one command; a timed dispatch resets its two queries, launches
/// between a stamp at the top of the pipe and one at its bottom, and launches
/// once for each repeat.
pub proof fn law_submitted_work_is_recorded(
    commands: u64,
    push: Seq<u8>,
    source: u64,
    target: u64,
    bytes: u64,
    pipeline: u64,
    layout: u64,
    pool: u64,
    set: u32,
    queries: u64,
    x: u32,
    y: u32,
    z: u32,
    repeats: u32,
    i: int,
)
    requires
        repeats >= 1,
        0 <= i < repeats,
    ensures
        (Work::Copy { source, target, bytes }).orders(commands, push) == seq![
            (Order::Copy { commands, source, target, bytes }),
        ],
        ({
            let w = Work::Timed { pipeline, layout, pool, set, queries, x, y, z, repeats };
            let row = w.orders(commands, push);
            let first = 3 + push.len() / 4;
            &&& row.len() == first + (2 * repeats - 1) + 1
            &&& row[0] == Order::ResetQueries { commands, pool: queries, count: 2 }
            &&& row.subrange(1, first - 1) == launch_orders(
                commands,
                pipeline,
                layout,
                pool,
                set,
                push,
            )
            &&& row[first - 1] == Order::Stamp { commands, pool: queries, query: 0, top: true }
            &&& row[first + 2 * i] == Order::Launch { commands, x, y, z }
            &&& i + 1 < repeats ==> row[first + 2 * i + 1] == Order::RepeatBarrier { commands }
            &&& row.last() == Order::Stamp { commands, pool: queries, query: 1, top: false }
        }),
{
    crate::ledger::law_launches_are_separated(commands, x, y, z, repeats as nat);
    let w = Work::Timed { pipeline, layout, pool, set, queries, x, y, z, repeats };
    let row = w.orders(commands, push);
    let first = 3 + push.len() / 4;
    assert(row.subrange(1, first - 1) =~= launch_orders(
        commands,
        pipeline,
        layout,
        pool,
        set,
        push,
    ));
    let l = launches(commands, x, y, z, repeats as nat);
    assert(row[first + 2 * i] == l[2 * i]);
    if i + 1 < repeats {
        assert(row[first + 2 * i + 1] == l[2 * i + 1]);
    }
}

/// A submission allocates a command buffer, records its work between the begin
/// and the end of it, makes a fence, submits the one with the other, waits for
/// that fence, and then releases both.
pub proof fn law_work_is_submitted_and_waited_for(
    work: Work,
    l: LedgerModel,
    push: Seq<u8>,
    commands: u64,
    fence: u64,
)
    requires
        i64::MIN + 2 <= l.live_objects <= i64::MAX - 2,
    ensures
        ({
            let s0 = OneShot { work, stage: ShotStage::Allocate };
            let (l1, o1) = s0.after(l, push, Reply::Handle(commands));
            let s1 = o1->Pending_0;
            let (l2, o2) = s1.after(l1, push, Reply::Done);
            let s2 = o2->Pending_0;
            let (l3, o3) = s2.after(l2, push, Reply::Done);
            let s3 = o3->Pending_0;
            let (l4, o4) = s3.after(l3, push, Reply::Handle(fence));
            let s4 = o4->Pending_0;
            let (l5, o5) = s4.after(l4, push, Reply::Done);
            let s5 = o5->Pending_0;
            let (l6, o6) = s5.after(l5, push, Reply::Done);
            &&& s0.next_call() == Call::AllocateCommandBuffer
            &&& o1 is Pending
            &&& s1.next_call() == Call::Begin { commands }
            &&& o2 is Pending
            &&& s2.next_call() == Call::End { commands }
            &&& o3 is Pending
            &&& s3.next_call() == Call::CreateFence
            &&& o4 is Pending
            &&& s4.next_call() == Call::Submit { commands, fence }
            &&& o5 is Pending
            &&& s5.next_call() == Call::WaitFence { fence }
            &&& o6 is Finished
            &&& l1.orders == l.orders
            &&& l2.orders == l.orders + work.orders(commands, push)
            &&& l5.orders == l2.orders
            &&& l6.orders == l2.orders + seq![
                Order::DestroyFence(fence),
                Order::FreeCommandBuffer(commands),
            ]
            &&& l6.live_objects == l.live_objects
            &&& l6.usable() == l.usable()
        }),
{
}

/// A submission that fails before it is made reports the driver's code and
/// releases what it had: nothing, its command buffer, or its fence and then its
/// command buffer.
pub proof fn law_refused_submission_is_undone(
    s: OneShot,
    l: LedgerModel,
    push: Seq<u8>,
    commands: u64,
    fence: u64,
    code: i32,
)
    ensures
        ({
            let failed = |stage: ShotStage| s.at(stage).after(l, push, Reply::Failed(code));
            let refused = ShotOutcome::Refused(Failure::Vulkan(code));
            &&& failed(ShotStage::Allocate) == (l, refused)
            &&& failed(ShotStage::Begin { commands }).1 == refused
            &&& failed(ShotStage::Begin { commands }).0.orders == l.orders + seq![
                Order::FreeCommandBuffer(commands),
            ]
            &&& failed(ShotStage::End { commands }).1 == refused
            &&& failed(ShotStage::End { commands }).0.orders == l.orders + seq![
                Order::FreeCommandBuffer(commands),
            ]
            &&& failed(ShotStage::Fence { commands }).1 == refused
            &&& failed(ShotStage::Fence { commands }).0.orders == l.orders + seq![
                Order::FreeCommandBuffer(commands),
            ]
            &&& failed(ShotStage::Submit { commands, fence }).1 == refused
            &&& failed(ShotStage::Submit { commands, fence }).0.orders == l.orders + seq![
                Order::DestroyFence(fence),
                Order::FreeCommandBuffer(commands),
            ]
        }),
{
}

/// A failed wait is followed by a wait for the idle device. A device that is
/// lost by either releases the two objects and poisons the context; one that
/// became idle releases them and reports the failed wait; any other leaves them
/// allocated, counts both, and poisons the context.
pub proof fn law_failed_wait_quiesces_the_device(
    s: OneShot,
    l: LedgerModel,
    push: Seq<u8>,
    commands: u64,
    fence: u64,
    wait: i32,
    idle: i32,
)
    requires
        l.usable(),
        !l.lost,
        l.leaked <= u64::MAX - 2,
    ensures
        ({
            let (l1, o1) = s.at(ShotStage::Wait { commands, fence }).after(
                l,
                push,
                Reply::Failed(wait),
            );
            let q = o1->Pending_0;
            let released = l.orders + seq![
                Order::DestroyFence(fence),
                Order::FreeCommandBuffer(commands),
            ];
            let (done, done_o) = q.after(l, push, Reply::Done);
            let (bad, bad_o) = q.after(l, push, Reply::Failed(idle));
            &&& l1 == l && o1 is Pending
            &&& q.next_call() == Call::WaitIdle
            &&& wait == -4 || idle == -4 ==> {
                &&& bad.orders == released
                &&& bad.lost && !bad.usable()
                &&& bad.leaked == l.leaked
                &&& bad_o == ShotOutcome::Refused(Failure::Vulkan(-4i32))
            }
            &&& wait == -4 ==> {
                &&& done.orders == released
                &&& done.lost && !done.usable()
                &&& done_o == ShotOutcome::Refused(Failure::Vulkan(-4i32))
            }
            &&& wait != -4 ==> {
                &&& done.orders == released
                &&& done.usable() && !done.lost
                &&& done_o == ShotOutcome::Refused(Failure::Vulkan(wait))
            }
            &&& wait != -4 && idle != -4 ==> {
                &&& bad.orders == l.orders
                &&& bad.leaked == l.leaked + 2
                &&& !bad.lost && !bad.usable()
                &&& bad_o is Refused && bad_o->Refused_0 == Failure::Poisoned(bad.poisoned->0)
            }
        }),
{
    reveal_with_fuel(LedgerModel::leaked, 3);
}

/// A poisoned context names the codes of the wait and of the idle that followed
/// it.
pub proof fn law_poison_names_both_codes(wait: i32, idle: i32)
    ensures
        lost_text(wait, None) == "device lost after a failed fence wait (wait "@ + result_name(wait)
            + ", idle "@ + "Ok(())"@ + "); nothing runs on it again"@,
        lost_text(wait, Some(idle)) == "device lost after a failed fence wait (wait "@
            + result_name(wait) + ", idle "@ + ("Err("@ + result_name(idle) + ")"@)
            + "); nothing runs on it again"@,
        unknown_text(wait, idle) == "fence wait failed ("@ + result_name(wait)
            + ") and the device could not be quiesced ("@ + result_name(idle)
            + "): the submission may still be running, its fence and command buffer stay allocated, and this context refuses every later call"@,
{
}

} // verus!
