//! The driver calls that can fail, and the replies to them.

use vstd::prelude::*;

verus! {

/// What a buffer is created for.
#[derive(Clone, Copy, Debug, PartialEq, Eq, Structural)]
pub enum Usage {
    /// A device-local storage buffer, source and target of transfers.
    Storage,
    /// A staging buffer that is read by a transfer.
    Upload,
    /// A staging buffer that is written by a transfer.
    Readback,
}

/// A driver call that can fail.
#[derive(Clone, Copy, Debug, PartialEq, Eq, Structural)]
pub enum Call {
    CreateBuffer { bytes: u64, usage: Usage },
    AllocateMemory { size: u64, type_index: u32 },
    BindMemory { buffer: u64, memory: u64 },
    /// Map the memory and copy into it the bytes that the operation in progress
    /// holds for this call.
    WriteMemory { memory: u64, bytes: u64 },
    /// Map the memory, invalidate it unless it is coherent, and copy it out.
    ReadMemory { memory: u64, bytes: u64, coherent: bool },
    CreateQueryPool { count: u32 },
    AllocateCommandBuffer,
    CreateFence,
    Begin { commands: u64 },
    End { commands: u64 },
    ResetFence { fence: u64 },
    Submit { commands: u64, fence: u64 },
    WaitFence { fence: u64 },
    WaitIdle,
    /// Read a batch's stamps and resolve their span.
    ReadStamps { pool: u64, count: u32 },
    /// Read a timed dispatch's two stamps.
    ReadTicks { pool: u64 },
    CreateShaderModule,
    CreateSetLayout { bindings: u32 },
    CreatePipelineLayout { dsl: u64, push_bytes: u32 },
    CreatePipeline { module: u64, layout: u64, subgroup: Option<u32> },
    CreateDescriptorPool { sets: u32, descriptors: u32 },
    AllocateSets { pool: u64, dsl: u64, count: u32 },
}

/// The reply to a driver call.
#[derive(Clone, Copy, Debug, PartialEq, Eq, Structural)]
pub enum Reply {
    /// The call failed with this result code.
    Failed(i32),
    Done,
    /// The object the call created.
    Handle(u64),
    /// The buffer the call created, and the memory it asks for.
    Buffer { buffer: u64, size: u64, type_bits: u32 },
    /// The intervals between the stamps of a batch, in nanoseconds.
    Span { sum: u64, min: u64, max: u64 },
    /// The stamps were read and their span cannot be resolved.
    NoSpan,
}

impl Call {
    /// Whether a reply is one that this call has.
    pub open spec fn admits(self, reply: Reply) -> bool {
        reply is Failed || match self {
            Call::CreateBuffer { .. } => reply is Buffer,
            Call::AllocateMemory { .. }
            | Call::CreateQueryPool { .. }
            | Call::AllocateCommandBuffer
            | Call::CreateFence
            | Call::CreateShaderModule
            | Call::CreateSetLayout { .. }
            | Call::CreatePipelineLayout { .. }
            | Call::CreatePipeline { .. }
            | Call::CreateDescriptorPool { .. } => reply is Handle,
            Call::ReadStamps { .. } => reply is Span || reply is NoSpan,
            _ => reply is Done,
        }
    }
}

} // verus!
