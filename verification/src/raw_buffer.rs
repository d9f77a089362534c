//! The creation of a buffer and its memory, one driver call at a time; a failure
//! after an object exists destroys what exists.

use crate::driver::{Call, Reply, Usage};
use crate::error::{memory_flags_name, memory_flags_text, AckError, Failure};
use crate::ledger::{Ledger, LedgerModel, Order};
use vstd::prelude::*;
use vstd::string::*;

verus! {

/// Memory that is fast for the device.
pub const DEVICE_LOCAL: u32 = 1;

/// Memory that the host can map.
pub const HOST_VISIBLE: u32 = 2;

/// Host-visible memory that needs no invalidation before a read.
pub const HOST_COHERENT: u32 = 4;

/// Host-visible memory that the host reads through its caches.
pub const HOST_CACHED: u32 = 8;

/// Whether the memory type at `i` is one of `bits` and has all of `flags`.
pub open spec fn suits(types: Seq<u32>, bits: u32, flags: u32, i: int) -> bool {
    bits & (1u32 << (i as u32)) != 0 && types[i] & flags == flags
}

/// The first suitable memory type from `from` on.
pub open spec fn first_type(types: Seq<u32>, bits: u32, flags: u32, from: int) -> Option<int>
    decreases types.len() - from,
{
    if from >= types.len() {
        None
    } else if suits(types, bits, flags, from) {
        Some(from)
    } else {
        first_type(types, bits, flags, from + 1)
    }
}

/// What a search for a memory type says when there is none.
pub open spec fn no_memory_type(flags: u32) -> Failure {
    Failure::Unsupported("no memory type with "@ + memory_flags_name(flags))
}

/// The memory type found is suitable and none before it is; where none is found
/// none is suitable.
pub proof fn law_memory_type_is_the_first(types: Seq<u32>, bits: u32, flags: u32, from: int)
    requires
        0 <= from,
    ensures
        match first_type(types, bits, flags, from) {
            Some(i) => from <= i < types.len() && suits(types, bits, flags, i) && forall|j: int|
                from <= j < i ==> !#[trigger] suits(types, bits, flags, j),
            None => forall|j: int|
                from <= j < types.len() ==> !#[trigger] suits(types, bits, flags, j),
        },
    decreases types.len() - from,
{
    if from < types.len() && !suits(types, bits, flags, from) {
        law_memory_type_is_the_first(types, bits, flags, from + 1);
    }
}

/// The index of the first memory type that is one of `bits` and has all of
/// `flags`.
pub fn memory_type(types: &Vec<u32>, bits: u32, flags: u32) -> (r: Result<u32, AckError>)
    requires
        types.len() <= 32,
    ensures
        match first_type(types@, bits, flags, 0) {
            Some(i) => r is Ok && r->Ok_0 == i,
            None => r is Err && r->Err_0@ == no_memory_type(flags),
        },
{
    let mut i: usize = 0;
    while i < types.len()
        invariant
            i <= types.len() <= 32,
            first_type(types@, bits, flags, 0) == first_type(types@, bits, flags, i as int),
        decreases types.len() - i,
    {
        let bit: u32 = 1u32 << (i as u32);
        if bits & bit != 0 && types[i] & flags == flags {
            return Ok(i as u32);
        }
        i += 1;
    }
    let name = memory_flags_text(flags);
    Err(AckError::Unsupported(String::from_str("no memory type with ").concat(name.as_str())))
}

#[derive(Clone, Copy, Debug, PartialEq, Eq, Structural)]
pub enum RawStage {
    Create,
    Allocate { buffer: u64, size: u64, type_index: u32 },
    Bind { buffer: u64, memory: u64 },
}

/// The creation of one buffer and its memory.
#[derive(Clone, Copy, Debug, PartialEq, Eq, Structural)]
pub struct RawBuffer {
    pub bytes: u64,
    pub usage: Usage,
    pub flags: u32,
    pub stage: RawStage,
}

/// Where a creation stands after a reply.
#[derive(Debug)]
pub enum RawNext {
    Pending(RawBuffer),
    Ready { buffer: u64, memory: u64 },
    Refused(AckError),
}

pub ghost enum RawOutcome {
    Pending(RawBuffer),
    Ready { buffer: u64, memory: u64 },
    Refused(Failure),
}

impl View for RawNext {
    type V = RawOutcome;

    open spec fn view(&self) -> RawOutcome {
        match self {
            RawNext::Pending(r) => RawOutcome::Pending(*r),
            RawNext::Ready { buffer, memory } => RawOutcome::Ready {
                buffer: *buffer,
                memory: *memory,
            },
            RawNext::Refused(e) => RawOutcome::Refused(e@),
        }
    }
}

impl RawBuffer {
    pub open spec fn next_call(self) -> Call {
        match self.stage {
            RawStage::Create => Call::CreateBuffer { bytes: self.bytes, usage: self.usage },
            RawStage::Allocate { size, type_index, .. } => Call::AllocateMemory { size, type_index },
            RawStage::Bind { buffer, memory } => Call::BindMemory { buffer, memory },
        }
    }

    /// The ledger and the creation after a reply.
    pub open spec fn after(self, types: Seq<u32>, l: LedgerModel, reply: Reply) -> (
        LedgerModel,
        RawOutcome,
    ) {
        match (self.stage, reply) {
            (RawStage::Create, Reply::Buffer { buffer, size, type_bits }) => match first_type(
                types,
                type_bits,
                self.flags,
                0,
            ) {
                Some(i) => (
                    l.created(),
                    RawOutcome::Pending(
                        RawBuffer {
                            stage: RawStage::Allocate { buffer, size, type_index: i as u32 },
                            ..self
                        },
                    ),
                ),
                None => (
                    l.created().destroyed(Order::DestroyBuffer(buffer)),
                    RawOutcome::Refused(no_memory_type(self.flags)),
                ),
            },
            (RawStage::Create, Reply::Failed(code)) => (
                l,
                RawOutcome::Refused(Failure::Vulkan(code)),
            ),
            (RawStage::Allocate { buffer, .. }, Reply::Handle(memory)) => (
                l.created(),
                RawOutcome::Pending(RawBuffer { stage: RawStage::Bind { buffer, memory }, ..self }),
            ),
            (RawStage::Allocate { buffer, .. }, Reply::Failed(code)) => (
                l.destroyed(Order::DestroyBuffer(buffer)),
                RawOutcome::Refused(Failure::Vulkan(code)),
            ),
            (RawStage::Bind { buffer, memory }, Reply::Done) => (
                l,
                RawOutcome::Ready { buffer, memory },
            ),
            (RawStage::Bind { buffer, memory }, Reply::Failed(code)) => (
                l.destroyed(Order::FreeMemory(memory)).destroyed(Order::DestroyBuffer(buffer)),
                RawOutcome::Refused(Failure::Vulkan(code)),
            ),
            _ => (l, RawOutcome::Pending(self)),
        }
    }

    /// How many objects the creation owns.
    pub open spec fn owned(self) -> int {
        match self.stage {
            RawStage::Create => 0,
            RawStage::Allocate { .. } => 1,
            RawStage::Bind { .. } => 2,
        }
    }

    pub fn new(bytes: u64, usage: Usage, flags: u32) -> (r: Self)
        ensures
            r == (RawBuffer { bytes, usage, flags, stage: RawStage::Create }),
    {
        RawBuffer { bytes, usage, flags, stage: RawStage::Create }
    }

    /// The call to make next.
    pub fn call(&self) -> (r: Call)
        ensures
            r == self.next_call(),
    {
        match self.stage {
            RawStage::Create => Call::CreateBuffer { bytes: self.bytes, usage: self.usage },
            RawStage::Allocate { size, type_index, .. } => Call::AllocateMemory { size, type_index },
            RawStage::Bind { buffer, memory } => Call::BindMemory { buffer, memory },
        }
    }

    /// Take the reply to the call.
    pub fn advance(self, types: &Vec<u32>, ledger: &mut Ledger, reply: Reply) -> (r: RawNext)
        requires
            types.len() <= 32,
            self.next_call().admits(reply),
        ensures
            (final(ledger)@, r@) == self.after(types@, old(ledger)@, reply),
    {
        match (self.stage, reply) {
            (RawStage::Create, Reply::Buffer { buffer, size, type_bits }) => {
                ledger.create();
                proof {
                    law_memory_type_is_the_first(types@, type_bits, self.flags, 0);
                }
                match memory_type(types, type_bits, self.flags) {
                    Ok(type_index) => RawNext::Pending(
                        RawBuffer {
                            bytes: self.bytes,
                            usage: self.usage,
                            flags: self.flags,
                            stage: RawStage::Allocate { buffer, size, type_index },
                        },
                    ),
                    Err(e) => {
                        ledger.destroy(Order::DestroyBuffer(buffer));
                        RawNext::Refused(e)
                    },
                }
            },
            (RawStage::Create, Reply::Failed(code)) => RawNext::Refused(AckError::Vulkan(code)),
            (RawStage::Allocate { buffer, .. }, Reply::Handle(memory)) => {
                ledger.create();
                RawNext::Pending(
                    RawBuffer {
                        bytes: self.bytes,
                        usage: self.usage,
                        flags: self.flags,
                        stage: RawStage::Bind { buffer, memory },
                    },
                )
            },
            (RawStage::Allocate { buffer, .. }, Reply::Failed(code)) => {
                ledger.destroy(Order::DestroyBuffer(buffer));
                RawNext::Refused(AckError::Vulkan(code))
            },
            (RawStage::Bind { buffer, memory }, Reply::Done) => RawNext::Ready { buffer, memory },
            (RawStage::Bind { buffer, memory }, Reply::Failed(code)) => {
                ledger.destroy(Order::FreeMemory(memory));
                ledger.destroy(Order::DestroyBuffer(buffer));
                RawNext::Refused(AckError::Vulkan(code))
            },
            _ => RawNext::Pending(self),
        }
    }
}

/// No creation leaves an object behind: a refusal at any call leaves as many
/// live objects as there were before it began, and success leaves two more.
pub proof fn law_raw_buffer_accounts_for_its_objects(
    r: RawBuffer,
    types: Seq<u32>,
    l: LedgerModel,
    reply: Reply,
    before: int,
)
    requires
        r.next_call().admits(reply),
        i64::MIN + 2 <= before <= i64::MAX - 2,
        l.live_objects == before + r.owned(),
    ensures
        match r.after(types, l, reply).1 {
            RawOutcome::Pending(next) => r.after(types, l, reply).0.live_objects == before
                + next.owned(),
            RawOutcome::Ready { .. } => r.after(types, l, reply).0.live_objects == before + 2,
            RawOutcome::Refused(_) => r.after(types, l, reply).0.live_objects == before,
        },
{
}

/// A suitable memory type is one that the buffer allows, and has each of the
/// asked-for properties.
pub proof fn law_suitable_type_is_allowed_and_has_the_flags(
    types: Seq<u32>,
    bits: u32,
    flags: u32,
    i: int,
    b: u32,
)
    requires
        0 <= i < types.len() <= 32,
        b < 32,
    ensures
        suits(types, bits, flags, i) ==> (bits >> (i as u32)) % 2 == 1,
        suits(types, bits, flags, i) && (flags >> b) % 2 == 1 ==> (types[i] >> b) % 2 == 1,
        (bits >> (i as u32)) % 2 == 1 && types[i] == flags ==> suits(types, bits, flags, i),
        (bits >> (i as u32)) % 2 == 1 && flags == 0 ==> suits(types, bits, flags, i),
{
    let t: u32 = types[i];
    let s: u32 = i as u32;
    assert(((bits & (1u32 << s) != 0) <==> (bits >> s) % 2 == 1) && (t & flags == flags && (flags
        >> b) % 2 == 1 ==> (t >> b) % 2 == 1) && t & t == t && t & 0u32 == 0) by (bit_vector)
        requires
            s < 32,
            b < 32,
    ;
}

/// A creation asks for the buffer, then for memory of the size that the driver
/// named and of the type that suits, then binds the two to each other, and hands
/// out those two.
pub proof fn law_buffer_is_created_allocated_and_bound(
    bytes: u64,
    usage: Usage,
    flags: u32,
    types: Seq<u32>,
    l: LedgerModel,
    buffer: u64,
    size: u64,
    type_bits: u32,
    i: int,
    memory: u64,
)
    requires
        types.len() <= 32,
        first_type(types, type_bits, flags, 0) == Some(i),
        i64::MIN <= l.live_objects <= i64::MAX - 2,
    ensures
        ({
            let first = RawBuffer { bytes, usage, flags, stage: RawStage::Create };
            let (l1, o1) = first.after(types, l, Reply::Buffer { buffer, size, type_bits });
            let second = o1->Pending_0;
            let (l2, o2) = second.after(types, l1, Reply::Handle(memory));
            let third = o2->Pending_0;
            let (l3, o3) = third.after(types, l2, Reply::Done);
            &&& first.next_call() == Call::CreateBuffer { bytes, usage }
            &&& o1 is Pending
            &&& second.next_call() == Call::AllocateMemory { size, type_index: i as u32 }
            &&& o2 is Pending
            &&& third.next_call() == Call::BindMemory { buffer, memory }
            &&& o3 == RawOutcome::Ready { buffer, memory }
            &&& l1.orders == l.orders && l2.orders == l.orders && l3.orders == l.orders
            &&& l1.live_objects == l.live_objects + 1
            &&& l2.live_objects == l.live_objects + 2
            &&& l3.live_objects == l.live_objects + 2
        }),
{
    law_memory_type_is_the_first(types, type_bits, flags, 0);
}

/// A creation that the driver refuses reports the driver's code and destroys what
/// it had made: nothing, the buffer, or the memory and then the buffer.
pub proof fn law_refused_creation_is_undone(
    bytes: u64,
    usage: Usage,
    flags: u32,
    types: Seq<u32>,
    l: LedgerModel,
    buffer: u64,
    size: u64,
    type_index: u32,
    memory: u64,
    code: i32,
)
    ensures
        ({
            let first = RawBuffer { bytes, usage, flags, stage: RawStage::Create };
            let second = RawBuffer {
                stage: RawStage::Allocate { buffer, size, type_index },
                ..first
            };
            let third = RawBuffer { stage: RawStage::Bind { buffer, memory }, ..first };
            let refused = RawOutcome::Refused(Failure::Vulkan(code));
            &&& first.after(types, l, Reply::Failed(code)) == (l, refused)
            &&& second.after(types, l, Reply::Failed(code)).1 == refused
            &&& second.after(types, l, Reply::Failed(code)).0.orders == l.orders + seq![
                Order::DestroyBuffer(buffer),
            ]
            &&& third.after(types, l, Reply::Failed(code)).1 == refused
            &&& third.after(types, l, Reply::Failed(code)).0.orders == l.orders + seq![
                Order::FreeMemory(memory),
                Order::DestroyBuffer(buffer),
            ]
        }),
{
}

/// A buffer that no memory type suits is destroyed, and the refusal names the
/// properties that were asked for.
pub proof fn law_unsuitable_buffer_is_destroyed(
    bytes: u64,
    usage: Usage,
    flags: u32,
    types: Seq<u32>,
    l: LedgerModel,
    buffer: u64,
    size: u64,
    type_bits: u32,
)
    requires
        forall|j: int|
            0 <= j < types.len() ==> !#[trigger] suits(types, type_bits, flags, j),
    ensures
        ({
            let first = RawBuffer { bytes, usage, flags, stage: RawStage::Create };
            let (l1, o1) = first.after(types, l, Reply::Buffer { buffer, size, type_bits });
            &&& o1 == RawOutcome::Refused(
                Failure::Unsupported("no memory type with "@ + memory_flags_name(flags)),
            )
            &&& l1.orders == l.orders + seq![Order::DestroyBuffer(buffer)]
        }),
{
    law_memory_type_is_the_first(types, type_bits, flags, 0);
}

} // verus!
