//! Faults that are armed to stand in for the driver's results, so that the paths
//! behind a failed call can be exercised on a working device.

use crate::driver::{Call, Reply};
use vstd::prelude::*;

verus! {

/// One object creation that a fault can fail.
#[derive(Clone, Copy, Debug, PartialEq, Eq, Structural)]
pub enum CreateStep {
    Buffer,
    /// Not a creation: the lookup of a memory type after the buffer exists.
    MemoryType,
    Memory,
    BindMemory,
    ShaderModule,
    DescriptorSetLayout,
    PipelineLayout,
    Pipeline,
    DescriptorPool,
    DescriptorSet,
    Fence,
    CommandBuffer,
    QueryPool,
}

/// A result to substitute for a real one, after the real call has run.
#[derive(Clone, Copy, Debug, PartialEq, Eq, Structural)]
pub enum Fault {
    /// The next wait for a fence reports this result.
    WaitFails(i32),
    /// The next wait for the device to idle reports this result.
    IdleFails(i32),
    /// The next creation of this kind reports this result.
    CreateFails(CreateStep, i32),
}

/// What a fault waits for.
#[derive(Clone, Copy, Debug, PartialEq, Eq, Structural)]
pub enum Occasion {
    Wait,
    Idle,
    Creation(CreateStep),
}

impl Fault {
    /// What the fault waits for.
    pub open spec fn waits_for(self) -> Occasion {
        match self {
            Fault::WaitFails(_) => Occasion::Wait,
            Fault::IdleFails(_) => Occasion::Idle,
            Fault::CreateFails(step, _) => Occasion::Creation(step),
        }
    }

    /// What the fault waits for.
    pub fn occasion(&self) -> (r: Occasion)
        ensures
            r == self.waits_for(),
    {
        match *self {
            Fault::WaitFails(_) => Occasion::Wait,
            Fault::IdleFails(_) => Occasion::Idle,
            Fault::CreateFails(step, _) => Occasion::Creation(step),
        }
    }

    /// The result that is reported.
    pub open spec fn reports(self) -> i32 {
        match self {
            Fault::WaitFails(code) => code,
            Fault::IdleFails(code) => code,
            Fault::CreateFails(_, code) => code,
        }
    }

    /// The result that is reported.
    pub fn result(&self) -> (r: i32)
        ensures
            r == self.reports(),
    {
        match *self {
            Fault::WaitFails(code) => code,
            Fault::IdleFails(code) => code,
            Fault::CreateFails(_, code) => code,
        }
    }
}

/// The occasion that a call is.
pub open spec fn occasion(call: Call) -> Option<Occasion> {
    match call {
        Call::WaitFence { .. } => Some(Occasion::Wait),
        Call::WaitIdle => Some(Occasion::Idle),
        Call::CreateBuffer { .. } => Some(Occasion::Creation(CreateStep::Buffer)),
        Call::AllocateMemory { .. } => Some(Occasion::Creation(CreateStep::Memory)),
        Call::BindMemory { .. } => Some(Occasion::Creation(CreateStep::BindMemory)),
        Call::CreateShaderModule => Some(Occasion::Creation(CreateStep::ShaderModule)),
        Call::CreateSetLayout { .. } => Some(Occasion::Creation(CreateStep::DescriptorSetLayout)),
        Call::CreatePipelineLayout { .. } => Some(Occasion::Creation(CreateStep::PipelineLayout)),
        Call::CreatePipeline { .. } => Some(Occasion::Creation(CreateStep::Pipeline)),
        Call::CreateDescriptorPool { .. } => Some(Occasion::Creation(CreateStep::DescriptorPool)),
        Call::AllocateSets { .. } => Some(Occasion::Creation(CreateStep::DescriptorSet)),
        Call::CreateFence => Some(Occasion::Creation(CreateStep::Fence)),
        Call::AllocateCommandBuffer => Some(Occasion::Creation(CreateStep::CommandBuffer)),
        Call::CreateQueryPool { .. } => Some(Occasion::Creation(CreateStep::QueryPool)),
        _ => None,
    }
}

fn occasion_of(call: &Call) -> (r: Option<Occasion>)
    ensures
        r == occasion(*call),
{
    match *call {
        Call::WaitFence { .. } => Some(Occasion::Wait),
        Call::WaitIdle => Some(Occasion::Idle),
        Call::CreateBuffer { .. } => Some(Occasion::Creation(CreateStep::Buffer)),
        Call::AllocateMemory { .. } => Some(Occasion::Creation(CreateStep::Memory)),
        Call::BindMemory { .. } => Some(Occasion::Creation(CreateStep::BindMemory)),
        Call::CreateShaderModule => Some(Occasion::Creation(CreateStep::ShaderModule)),
        Call::CreateSetLayout { .. } => Some(Occasion::Creation(CreateStep::DescriptorSetLayout)),
        Call::CreatePipelineLayout { .. } => Some(Occasion::Creation(CreateStep::PipelineLayout)),
        Call::CreatePipeline { .. } => Some(Occasion::Creation(CreateStep::Pipeline)),
        Call::CreateDescriptorPool { .. } => Some(Occasion::Creation(CreateStep::DescriptorPool)),
        Call::AllocateSets { .. } => Some(Occasion::Creation(CreateStep::DescriptorSet)),
        Call::CreateFence => Some(Occasion::Creation(CreateStep::Fence)),
        Call::AllocateCommandBuffer => Some(Occasion::Creation(CreateStep::CommandBuffer)),
        Call::CreateQueryPool { .. } => Some(Occasion::Creation(CreateStep::QueryPool)),
        _ => None,
    }
}

/// The first armed fault, from `i` on, that waits for an occasion.
pub open spec fn first_for(armed: Seq<Fault>, o: Occasion, i: int) -> Option<int>
    decreases armed.len() - i,
{
    if i < 0 || i >= armed.len() {
        None
    } else if armed[i].waits_for() == o {
        Some(i)
    } else {
        first_for(armed, o, i + 1)
    }
}

/// The faults that stay armed after an occasion, and the result that the oldest
/// one for it reports.
pub open spec fn consumed(armed: Seq<Fault>, o: Occasion) -> (Seq<Fault>, Option<i32>) {
    match first_for(armed, o, 0) {
        Some(i) => (armed.remove(i), Some(armed[i].reports())),
        None => (armed, None),
    }
}

/// The faults that stay armed after a call, and the reply to act on. A wait's
/// fault stands in whatever the wait returned; a creation's stands in only for a
/// creation that succeeded.
pub open spec fn substituted(armed: Seq<Fault>, call: Call, reply: Reply) -> (Seq<Fault>, Reply) {
    match occasion(call) {
        Some(o) => if o is Creation && reply is Failed {
            (armed, reply)
        } else {
            (
                consumed(armed, o).0,
                match consumed(armed, o).1 {
                    Some(code) => Reply::Failed(code),
                    None => reply,
                },
            )
        },
        None => (armed, reply),
    }
}

/// The faults that are armed, oldest first.
#[derive(Debug)]
pub struct Faults {
    armed: Vec<Fault>,
}

impl View for Faults {
    type V = Seq<Fault>;

    closed spec fn view(&self) -> Seq<Fault> {
        self.armed@
    }
}

impl Faults {
    /// No fault is armed.
    pub fn new() -> (r: Self)
        ensures
            r@ == Seq::<Fault>::empty(),
    {
        Faults { armed: Vec::new() }
    }

    /// Arm a fault.
    pub fn inject_fault(&mut self, fault: Fault)
        ensures
            final(self)@ == old(self)@.push(fault),
    {
        self.armed.push(fault);
    }

    /// Faults armed and not yet consumed.
    pub fn armed_faults(&self) -> (r: usize)
        ensures
            r == self@.len(),
    {
        self.armed.len()
    }

    /// Disarm every fault.
    pub fn clear_faults(&mut self)
        ensures
            final(self)@ == Seq::<Fault>::empty(),
    {
        self.armed = Vec::new();
    }

    /// Consume the oldest fault for an occasion.
    fn consume(&mut self, o: Occasion) -> (r: Option<i32>)
        ensures
            (final(self)@, r) == consumed(old(self)@, o),
    {
        let mut i: usize = 0;
        while i < self.armed.len()
            invariant
                i <= self.armed.len(),
                self@ == old(self)@,
                first_for(self@, o, 0) == first_for(self@, o, i as int),
            decreases self.armed.len() - i,
        {
            let fault = self.armed[i];
            if fault.occasion() == o {
                self.armed.remove(i);
                return Some(fault.result());
            }
            i += 1;
        }
        None
    }

    /// The fault of what is looked up before a call is made: an allocation of
    /// memory is preceded by the lookup of its memory type. Where there is one
    /// the call is not made and this is its reply.
    pub fn before(&mut self, call: &Call) -> (r: Option<Reply>)
        ensures
            match *call {
                Call::AllocateMemory { .. } => {
                    let (armed, code) = consumed(
                        old(self)@,
                        Occasion::Creation(CreateStep::MemoryType),
                    );
                    final(self)@ == armed && r == match code {
                        Some(c) => Some(Reply::Failed(c)),
                        None => None,
                    }
                },
                _ => r is None && final(self)@ == old(self)@,
            },
    {
        match *call {
            Call::AllocateMemory { .. } => match self.consume(
                Occasion::Creation(CreateStep::MemoryType),
            ) {
                Some(code) => Some(Reply::Failed(code)),
                None => None,
            },
            _ => None,
        }
    }

    /// The reply to act on after a call was made.
    pub fn after(&mut self, call: &Call, reply: Reply) -> (r: Reply)
        ensures
            (final(self)@, r) == substituted(old(self)@, *call, reply),
    {
        match occasion_of(call) {
            Some(o) => {
                let creates: bool = match o {
                    Occasion::Creation(_) => true,
                    _ => false,
                };
                let failed: bool = match reply {
                    Reply::Failed(_) => true,
                    _ => false,
                };
                if creates && failed {
                    return reply;
                }
                match self.consume(o) {
                    Some(code) => Reply::Failed(code),
                    None => reply,
                }
            },
            None => reply,
        }
    }
}

proof fn lemma_none_waits(armed: Seq<Fault>, o: Occasion, i: int)
    requires
        forall|j: int| 0 <= j < armed.len() ==> (#[trigger] armed[j]).waits_for() != o,
    ensures
        first_for(armed, o, i) is None,
    decreases armed.len() - i,
{
    if 0 <= i < armed.len() {
        lemma_none_waits(armed, o, i + 1);
    }
}

/// A call that no armed fault waits for is left alone, and so are the faults.
pub proof fn law_other_calls_consume_no_fault(armed: Seq<Fault>, call: Call, reply: Reply)
    requires
        forall|j: int|
            0 <= j < armed.len() ==> occasion(call) != Some((#[trigger] armed[j]).waits_for()),
    ensures
        substituted(armed, call, reply) == (armed, reply),
{
    if let Some(o) = occasion(call) {
        lemma_none_waits(armed, o, 0);
    }
}

/// A reply that a fault substitutes is one that the call has.
pub proof fn law_a_fault_is_a_reply(armed: Seq<Fault>, call: Call, reply: Reply)
    requires
        call.admits(reply),
    ensures
        call.admits(substituted(armed, call, reply).1),
{
}

proof fn lemma_first_for(armed: Seq<Fault>, o: Occasion, i: int, from: int)
    requires
        0 <= from <= i < armed.len(),
        armed[i].waits_for() == o,
        forall|j: int| 0 <= j < i ==> (#[trigger] armed[j]).waits_for() != o,
    ensures
        first_for(armed, o, from) == Some(i),
    decreases i - from,
{
    if from < i {
        lemma_first_for(armed, o, i, from + 1);
    }
}

/// The oldest fault for a fence makes the next wait for a fence fail with its
/// code, whatever the wait returned; it alone is disarmed.
pub proof fn law_wait_fails_as_armed(armed: Seq<Fault>, i: int, fence: u64, reply: Reply)
    requires
        0 <= i < armed.len(),
        armed[i] is WaitFails,
        forall|j: int| 0 <= j < i ==> !((#[trigger] armed[j]) is WaitFails),
    ensures
        substituted(armed, Call::WaitFence { fence }, reply).0 == armed.take(i) + armed.skip(i + 1),
        substituted(armed, Call::WaitFence { fence }, reply).1 == Reply::Failed(
            armed[i]->WaitFails_0,
        ),
{
    lemma_first_for(armed, Occasion::Wait, i, 0);
    assert(armed.remove(i) =~= armed.take(i) + armed.skip(i + 1));
}

/// The oldest fault for an idle device makes the next wait for it fail with its
/// code, whatever the wait returned; it alone is disarmed.
pub proof fn law_idle_fails_as_armed(armed: Seq<Fault>, i: int, reply: Reply)
    requires
        0 <= i < armed.len(),
        armed[i] is IdleFails,
        forall|j: int| 0 <= j < i ==> !((#[trigger] armed[j]) is IdleFails),
    ensures
        substituted(armed, Call::WaitIdle, reply).0 == armed.take(i) + armed.skip(i + 1),
        substituted(armed, Call::WaitIdle, reply).1 == Reply::Failed(armed[i]->IdleFails_0),
{
    lemma_first_for(armed, Occasion::Idle, i, 0);
    assert(armed.remove(i) =~= armed.take(i) + armed.skip(i + 1));
}

/// The oldest fault for a kind of creation makes the next creation of that kind
/// that succeeded fail with its code, and it alone is disarmed; one that failed
/// by itself disarms nothing.
pub proof fn law_creation_fails_as_armed(
    armed: Seq<Fault>,
    i: int,
    step: CreateStep,
    code: i32,
    call: Call,
    reply: Reply,
)
    requires
        0 <= i < armed.len(),
        armed[i] == Fault::CreateFails(step, code),
        forall|j: int|
            0 <= j < i ==> !((#[trigger] armed[j]) is CreateFails && armed[j]->CreateFails_0
                == step),
        match step {
            CreateStep::Buffer => call is CreateBuffer,
            CreateStep::MemoryType => false,
            CreateStep::Memory => call is AllocateMemory,
            CreateStep::BindMemory => call is BindMemory,
            CreateStep::ShaderModule => call is CreateShaderModule,
            CreateStep::DescriptorSetLayout => call is CreateSetLayout,
            CreateStep::PipelineLayout => call is CreatePipelineLayout,
            CreateStep::Pipeline => call is CreatePipeline,
            CreateStep::DescriptorPool => call is CreateDescriptorPool,
            CreateStep::DescriptorSet => call is AllocateSets,
            CreateStep::Fence => call is CreateFence,
            CreateStep::CommandBuffer => call is AllocateCommandBuffer,
            CreateStep::QueryPool => call is CreateQueryPool,
        },
    ensures
        reply is Failed ==> substituted(armed, call, reply) == (armed, reply),
        !(reply is Failed) ==> substituted(armed, call, reply) == (
            armed.take(i) + armed.skip(i + 1),
            Reply::Failed(code),
        ),
{
    lemma_first_for(armed, Occasion::Creation(step), i, 0);
    assert(armed.remove(i) =~= armed.take(i) + armed.skip(i + 1));
}

/// A transfer, a recording, a submission or a reading of stamps is never made to
/// fail, and no fault is disarmed by it.
pub proof fn law_only_waits_and_creations_fail_as_armed(
    armed: Seq<Fault>,
    call: Call,
    reply: Reply,
)
    requires
        call is WriteMemory || call is ReadMemory || call is Begin || call is End
            || call is ResetFence || call is Submit || call is ReadStamps || call is ReadTicks,
    ensures
        substituted(armed, call, reply) == (armed, reply),
{
}

} // verus!
