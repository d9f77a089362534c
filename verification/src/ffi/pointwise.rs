//! The pointwise entry: its plan block against the buffers' real capacities,
//! each measured by its own storage bit.

use super::device::{
    answer, block_of, device_refusal, found_model, one_launch, open_device, run_one, AckDevice,
    DeviceModel, LaunchModel, Slot, Step, StepModel,
};
use super::reason::{first, unless, Family, Reason, Refusal};
use super::{ACK_ERR_NULL, ACK_ERR_SHAPE, ACK_ERR_SIZE, ACK_ERR_UNSUPPORTED_OP};
use crate::batch::AccessKind;
use crate::context::Buffer;
use crate::pointwise_ops::{
    block_word, coordinate, decoded, law_admitted_block_is_a_valid_plan,
    law_admitted_block_is_read_word_by_word, law_flags_are_the_scalar_and_storage_bits,
    law_grid_has_a_workgroup_per_1024_elements, law_operations_are_numbered,
    law_plan_stays_inside_its_storage, law_push_block_addresses_the_views,
    law_push_block_holds_the_plan, law_storage_bits_number_the_module, lemma_origin_is_a_coordinate,
    module_index, slot_element_bytes, storage_bit, storage_module, PointwiseModel, PointwiseOp,
    PointwisePlan, PointwisePlanError, Storage, PUSH_BYTES,
};
use crate::words::{read_word, word_at, words_bytes};
use vstd::prelude::*;

verus! {

/// Refuse a request before any device is looked up.
pub open spec fn request_refusal(plan: Option<Seq<u8>>) -> Option<Refusal> {
    match plan {
        None => Some(Refusal { code: ACK_ERR_NULL, reason: Reason::Unnamed }),
        Some(p) => if p.len() != PUSH_BYTES {
            Some(
                Refusal {
                    code: ACK_ERR_SIZE,
                    reason: Reason::BlockLength {
                        family: Family::Pointwise,
                        len: p.len() as usize,
                        need: PUSH_BYTES,
                    },
                },
            )
        } else {
            unless(
                PointwiseOp::decode(block_word(p, 0)) is Some,
                ACK_ERR_SHAPE,
                Reason::Pointwise { error: PointwisePlanError::OperationOutOfRange },
            )
        },
    }
}

/// The code a refused plan is returned as.
pub open spec fn plan_code(err: PointwisePlanError) -> i32 {
    if err is AddressOverflow {
        ACK_ERR_SIZE
    } else {
        ACK_ERR_SHAPE
    }
}

fn pointwise_plan_code(err: PointwisePlanError) -> (r: i32)
    ensures
        r == plan_code(err),
{
    match err {
        PointwisePlanError::AddressOverflow => ACK_ERR_SIZE,
        _ => ACK_ERR_SHAPE,
    }
}

/// A pointwise request on a device's buffers: x, y, z and the output.
pub ghost struct PointwiseCall {
    pub device: DeviceModel,
    pub x: u64,
    pub y: u64,
    pub z: u64,
    pub out: u64,
    pub plan: Seq<u8>,
}

impl PointwiseCall {
    pub open spec fn flags(self) -> u32 {
        block_word(self.plan, 3)
    }

    /// The kernel for the storage bits of the block.
    pub open spec fn slot(self) -> Slot {
        Slot::Pointwise(module_index(self.flags()) as u32)
    }

    /// A buffer's identity and its capacity in elements of its own slot.
    pub open spec fn storage(self, handle: u64, index: int) -> Storage {
        Storage {
            identity: self.device.buffer(handle).id,
            capacity_elements: self.device.buffer(handle).bytes / element_bytes(
                self.flags(),
                index,
            ),
        }
    }

    /// What the block describes on the buffers.
    pub open spec fn planned(self) -> Result<PointwiseModel, PointwisePlanError> {
        decoded(
            self.plan,
            seq![
                self.storage(self.x, 0),
                self.storage(self.y, 1),
                self.storage(self.z, 2),
                self.storage(self.out, 3),
            ],
        )
    }

    /// The refusal of the call, if it is refused.
    pub open spec fn refusal(self) -> Option<Refusal> {
        let d = self.device;
        first(
            d.four_refused(self.x, self.y, self.z, self.out),
            first(
                match self.planned() {
                    Err(error) => Some(
                        Refusal { code: plan_code(error), reason: Reason::Pointwise { error } },
                    ),
                    Ok(_) => None,
                },
                unless(
                    d.has(self.slot()),
                    ACK_ERR_UNSUPPORTED_OP,
                    Reason::Absent { family: Family::Pointwise },
                ),
            ),
        )
    }

    pub open spec fn launch(self) -> LaunchModel {
        let p = self.planned()->Ok_0;
        self.device.launch(
            self.slot(),
            seq![self.x, self.y, self.z, self.out],
            3,
            words_bytes(p.push_words()),
            p.groups(),
        )
    }

    /// What the call on an open device is answered: a storage module is built on
    /// the first call that asks for it.
    pub open spec fn answer(self) -> Result<StepModel, Refusal> {
        if module_index(self.flags()) != 0 && !self.device.has(self.slot()) {
            Ok(StepModel::Build(self.slot()))
        } else {
            match self.refusal() {
                Some(refusal) => Err(refusal),
                None => Ok(run_one(self.launch())),
            }
        }
    }
}

/// The bytes of an element in a slot.
pub open spec fn element_bytes(flags: u32, index: int) -> u64 {
    if flags & storage_bit(index) != 0 {
        2
    } else {
        4
    }
}

/// Copy a block of the right length.
fn copy_block(bytes: &[u8]) -> (r: [u8; 120])
    requires
        bytes.len() == 120,
    ensures
        r@ == bytes@,
{
    let mut block: [u8; 120] = [0; 120];
    let mut i: usize = 0;
    while i < 120
        invariant
            i <= 120,
            bytes.len() == 120,
            forall|j: int| 0 <= j < i ==> block@[j] == bytes@[j],
        decreases 120 - i,
    {
        block[i] = bytes[i];
        i += 1;
    }
    proof {
        assert(block@ =~= bytes@);
    }
    block
}

/// `out = f(x, y, z)` over one row-major shape of at most four dimensions. The
/// block is validated against the buffers' real capacities and identities; a
/// slot that the operation does not read is bound and checked all the same.
pub fn ack_pointwise(
    dev: u64,
    found: Option<&AckDevice>,
    handles: [u64; 4],
    plan: Option<&[u8]>,
) -> (r: Result<Step, Refusal>)
    requires
        found matches Some(d) ==> d.wf(),
    ensures
        match first(request_refusal(block_of(plan)), device_refusal(dev, found_model(found))) {
            Some(refusal) => answer(r) == Err::<StepModel, Refusal>(refusal),
            None => answer(r) == (PointwiseCall {
                device: found_model(found)->0,
                x: handles@[0],
                y: handles@[1],
                z: handles@[2],
                out: handles@[3],
                plan: plan->0@,
            }).answer(),
        },
{
    let bytes: &[u8] = match plan {
        None => {
            return Err(Refusal { code: ACK_ERR_NULL, reason: Reason::Unnamed });
        },
        Some(p) => p,
    };
    if bytes.len() != PUSH_BYTES {
        return Err(
            Refusal {
                code: ACK_ERR_SIZE,
                reason: Reason::BlockLength {
                    family: Family::Pointwise,
                    len: bytes.len(),
                    need: PUSH_BYTES,
                },
            },
        );
    }
    let block = copy_block(bytes);
    match PointwiseOp::try_from(read_word(&block, 0)) {
        Ok(_) => {},
        Err(error) => {
            return Err(Refusal { code: ACK_ERR_SHAPE, reason: Reason::Pointwise { error } });
        },
    }
    let d: &AckDevice = match open_device(dev, found) {
        Ok(d) => d,
        Err(refusal) => {
            return Err(refusal);
        },
    };
    let ghost call = PointwiseCall {
        device: d@,
        x: handles@[0],
        y: handles@[1],
        z: handles@[2],
        out: handles@[3],
        plan: bytes@,
    };
    let flags: u32 = read_word(&block, 3);
    let module: usize = storage_module(flags);
    let slot = Slot::Pointwise(module as u32);
    if module != 0 && !d.holds(slot) {
        return Ok(Step::Build(slot));
    }
    let x: &Buffer = match d.buffer_of(handles[0]) {
        Ok(b) => b,
        Err(refusal) => {
            return Err(refusal);
        },
    };
    let y: &Buffer = match d.buffer_of(handles[1]) {
        Ok(b) => b,
        Err(refusal) => {
            return Err(refusal);
        },
    };
    let z: &Buffer = match d.buffer_of(handles[2]) {
        Ok(b) => b,
        Err(refusal) => {
            return Err(refusal);
        },
    };
    let out: &Buffer = match d.buffer_of(handles[3]) {
        Ok(b) => b,
        Err(refusal) => {
            return Err(refusal);
        },
    };
    let storage: [Storage; 4] = [
        Storage::new(x.id(), x.size() / slot_element_bytes(flags, 0)),
        Storage::new(y.id(), y.size() / slot_element_bytes(flags, 1)),
        Storage::new(z.id(), z.size() / slot_element_bytes(flags, 2)),
        Storage::new(out.id(), out.size() / slot_element_bytes(flags, 3)),
    ];
    proof {
        assert(storage@ =~= seq![
            call.storage(call.x, 0),
            call.storage(call.y, 1),
            call.storage(call.z, 2),
            call.storage(call.out, 3),
        ]);
    }
    let planned = match PointwisePlan::from_push_constants(&block, storage) {
        Ok(p) => p,
        Err(error) => {
            return Err(
                Refusal { code: pointwise_plan_code(error), reason: Reason::Pointwise { error } },
            );
        },
    };
    if !d.holds(slot) {
        return Err(
            Refusal {
                code: ACK_ERR_UNSUPPORTED_OP,
                reason: Reason::Absent { family: Family::Pointwise },
            },
        );
    }
    let mut push: Vec<u8> = Vec::new();
    let image = planned.push_constants();
    push.extend_from_slice(&image);
    proof {
        assert(push@ =~= image@);
        assert(handles@ =~= seq![call.x, call.y, call.z, call.out]);
    }
    Ok(one_launch(d.launch_on(slot, &handles, 3, push, planned.dispatch_groups())))
}

/// The module that runs an accepted call is the one that its plan's own storage
/// bits name.
pub proof fn law_module_follows_the_plan(c: PointwiseCall)
    requires
        c.planned() is Ok,
    ensures
        c.slot() == Slot::Pointwise(module_index(c.planned()->Ok_0.storage_flags) as u32),
{
    let f = c.flags();
    assert(f & 60u32 & 4u32 == f & 4u32 && f & 60u32 & 8u32 == f & 8u32 && f & 60u32 & 16u32 == f
        & 16u32 && f & 60u32 & 32u32 == f & 32u32) by (bit_vector);
}

/// Every element that an accepted call reads or writes lies inside its buffer.
pub proof fn law_accepted_call_stays_inside_its_buffers(
    c: PointwiseCall,
    k: int,
    at: Seq<int>,
)
    requires
        c.planned() is Ok,
        0 <= k < 4,
        coordinate(c.planned()->Ok_0.dims(), at),
    ensures
        ({
            let handle = seq![c.x, c.y, c.z, c.out][k];
            let width = element_bytes(c.flags(), k);
            0 <= c.planned()->Ok_0.views[k].address(at) * width <= c.device.buffer(handle).bytes
                - width
        }),
{
    let handles = seq![c.x, c.y, c.z, c.out];
    let storage = seq![
        c.storage(c.x, 0),
        c.storage(c.y, 1),
        c.storage(c.z, 2),
        c.storage(c.out, 3),
    ];
    let p = c.planned()->Ok_0;
    law_admitted_block_is_a_valid_plan(c.plan, storage);
    law_plan_stays_inside_its_storage(p, k, at);
    assert(storage[k] == c.storage(handles[k], k));
    let width = element_bytes(c.flags(), k);
    let bytes = c.device.buffer(handles[k]).bytes;
    let address = p.views[k].address(at);
    assert(address < bytes / width);
    assert(0 <= address * width <= bytes - width) by (nonlinear_arith)
        requires
            0 <= address < bytes / width,
            width == 2 || width == 4,
    ;
}

/// The width of an element in a slot follows the slot's own bit of the flags.
pub proof fn law_element_widths_follow_the_flags(flags: u32)
    ensures
        element_bytes(flags, 0) == (if (flags / 4) % 2 == 1 {
            2int
        } else {
            4
        }),
        element_bytes(flags, 1) == (if (flags / 8) % 2 == 1 {
            2int
        } else {
            4
        }),
        element_bytes(flags, 2) == (if (flags / 16) % 2 == 1 {
            2int
        } else {
            4
        }),
        element_bytes(flags, 3) == (if (flags / 32) % 2 == 1 {
            2int
        } else {
            4
        }),
{
    law_storage_bits_number_the_module(flags);
}

/// A call is answered with a build exactly where its block's storage bits name a
/// module that is not there yet, and then with that module.
pub proof fn law_missing_storage_module_is_built(c: PointwiseCall)
    ensures
        ({
            let module = (block_word(c.plan, 3) / 4) % 16;
            let missing = module != 0 && !c.device.has(Slot::Pointwise(module));
            &&& missing ==> c.answer() == Ok::<StepModel, Refusal>(
                StepModel::Build(Slot::Pointwise(module)),
            )
            &&& !missing && c.refusal() is Some ==> c.answer() == Err::<StepModel, Refusal>(
                c.refusal()->0,
            )
        }),
{
    law_storage_bits_number_the_module(c.flags());
}

/// An accepted call is one launch of its block's module: x, y and z are read and
/// the output written.
pub proof fn law_accepted_call_is_one_launch(c: PointwiseCall)
    requires
        c.refusal() is None,
    ensures
        c.answer() == Ok::<StepModel, Refusal>(StepModel::Run(Seq::empty(), seq![c.launch()])),
        ({
            let l = c.launch();
            &&& l.slot == Slot::Pointwise((block_word(c.plan, 3) / 4) % 16)
            &&& l.buffers == seq![
                (c.x % 0x1_0000_0000) as u32,
                (c.y % 0x1_0000_0000) as u32,
                (c.z % 0x1_0000_0000) as u32,
                (c.out % 0x1_0000_0000) as u32,
            ]
            &&& l.access[0].kind == AccessKind::Read
            &&& l.access[1].kind == AccessKind::Read
            &&& l.access[2].kind == AccessKind::Read
            &&& l.access[3].kind == AccessKind::Write
        }),
{
    law_storage_bits_number_the_module(c.flags());
    assert(c.launch().buffers =~= seq![
        (c.x % 0x1_0000_0000) as u32,
        (c.y % 0x1_0000_0000) as u32,
        (c.z % 0x1_0000_0000) as u32,
        (c.out % 0x1_0000_0000) as u32,
    ]);
}

/// An accepted block's operation, dimensions, count, flags and scalars are pushed
/// unchanged, and the grid covers its count in groups of 1024.
pub proof fn law_accepted_call_pushes_its_words(c: PointwiseCall)
    requires
        c.plan.len() == 120,
        c.planned() is Ok,
    ensures
        ({
            let push = words_bytes(c.planned()->Ok_0.push_words());
            let groups = c.planned()->Ok_0.groups();
            &&& c.launch().push == push
            &&& c.launch().groups == groups
            &&& push.len() == 120
            &&& word_at(push, 0) == word_at(c.plan, 0)
            &&& word_at(push, 1) == word_at(c.plan, 1)
            &&& word_at(push, 2) == word_at(c.plan, 2)
            &&& word_at(push, 3) == word_at(c.plan, 3)
            &&& word_at(push, 28) == word_at(c.plan, 28)
            &&& word_at(push, 29) == word_at(c.plan, 29)
            &&& (groups[0] - 1) * 1024 < word_at(c.plan, 2) <= groups[0] * 1024
            &&& groups[1] == 1 && groups[2] == 1
        }),
{
    let p = c.planned()->Ok_0;
    let storage = seq![
        c.storage(c.x, 0),
        c.storage(c.y, 1),
        c.storage(c.z, 2),
        c.storage(c.out, 3),
    ];
    let zero = seq![0int, 0int, 0int, 0int];
    law_admitted_block_is_a_valid_plan(c.plan, storage);
    lemma_origin_is_a_coordinate(p);
    law_admitted_block_is_read_word_by_word(c.plan, storage, 0, zero);
    law_push_block_holds_the_plan(p);
    law_grid_has_a_workgroup_per_1024_elements(p);
    law_flags_are_the_scalar_and_storage_bits(p);
}

/// The kernel reaches every element of an accepted call where the caller's block
/// says: the pushed strides and offset of each operand lead to the address that
/// the block's own lead to.
pub proof fn law_accepted_call_addresses_as_its_block(c: PointwiseCall, at: Seq<int>)
    requires
        c.plan.len() == 120,
        c.planned() is Ok,
        coordinate(c.planned()->Ok_0.dims(), at),
    ensures
        ({
            let leads = |w: Seq<u8>, k: int|
                word_at(w, 12 + 5 * k) + at[0] * word_at(w, 8 + 5 * k) + at[1] * word_at(w, 9 + 5 * k)
                    + at[2] * word_at(w, 10 + 5 * k) + at[3] * word_at(w, 11 + 5 * k);
            &&& leads(c.launch().push, 0) == leads(c.plan, 0)
            &&& leads(c.launch().push, 1) == leads(c.plan, 1)
            &&& leads(c.launch().push, 2) == leads(c.plan, 2)
            &&& leads(c.launch().push, 3) == leads(c.plan, 3)
        }),
{
    let p = c.planned()->Ok_0;
    let storage = seq![
        c.storage(c.x, 0),
        c.storage(c.y, 1),
        c.storage(c.z, 2),
        c.storage(c.out, 3),
    ];
    law_admitted_block_is_a_valid_plan(c.plan, storage);
    law_push_block_addresses_the_views(p, at);
    law_admitted_block_is_read_word_by_word(c.plan, storage, 0, at);
    law_admitted_block_is_read_word_by_word(c.plan, storage, 1, at);
    law_admitted_block_is_read_word_by_word(c.plan, storage, 2, at);
    law_admitted_block_is_read_word_by_word(c.plan, storage, 3, at);
}

/// A request is taken up exactly with a block of 120 bytes whose first word names
/// an operation.
pub proof fn law_requests_are_taken_up_with_a_block(plan: Option<Seq<u8>>)
    ensures
        request_refusal(plan) is None <==> plan is Some && plan->0.len() == 120 && block_word(
            plan->0,
            0,
        ) <= 23,
        plan is None ==> request_refusal(plan)->0.code == -1,
        plan is Some && plan->0.len() != 120 ==> request_refusal(plan)->0.code == -4,
        plan is Some && plan->0.len() == 120 && block_word(plan->0, 0) > 23
            ==> request_refusal(plan)->0.code == -3,
{
    if plan is Some {
        law_operations_are_numbered(PointwiseOp::Fill, block_word(plan->0, 0));
    }
}

/// A call on resolved handles is refused as a size where an address lies beyond
/// its buffer, as a shape for every other fault of its plan, and for a missing
/// kernel last.
pub proof fn law_refused_calls_say_why(c: PointwiseCall)
    requires
        c.device.handle_refusal(c.x) is None,
        c.device.handle_refusal(c.y) is None,
        c.device.handle_refusal(c.z) is None,
        c.device.handle_refusal(c.out) is None,
    ensures
        c.refusal() is None <==> c.planned() is Ok && c.device.has(c.slot()),
        c.planned() matches Err(e) ==> c.refusal() is Some && c.refusal()->0.code == (if e
            is AddressOverflow {
            -4i32
        } else {
            -3i32
        }),
        c.planned() is Ok && !c.device.has(c.slot()) ==> c.refusal() is Some
            && c.refusal()->0.code == -11,
{
}

/// The buffers are measured in the elements of their own slots.
pub proof fn law_capacities_are_counted_in_elements(c: PointwiseCall, handle: u64, index: int)
    requires
        0 <= index < 4,
    ensures
        ({
            let width = element_bytes(c.flags(), index);
            let s = c.storage(handle, index);
            &&& width == 2 || width == 4
            &&& s.identity == c.device.buffer(handle).id
            &&& s.capacity_elements * width <= c.device.buffer(handle).bytes
            &&& (s.capacity_elements + 1) * width > c.device.buffer(handle).bytes
        }),
{
    let width = element_bytes(c.flags(), index);
    let bytes = c.device.buffer(handle).bytes;
    let n = c.storage(handle, index).capacity_elements;
    if width == 2 {
        assert(n == bytes / 2);
    } else {
        assert(n == bytes / 4);
    }
}

/// A refused call says why: the block's length, the operation, what the plan
/// refuses, or a missing kernel.
pub proof fn law_refused_calls_name_the_reason(p: Seq<u8>, c: PointwiseCall)
    requires
        p.len() <= usize::MAX,
    ensures
        request_refusal(None)->0.reason is Unnamed,
        p.len() != 120 ==> request_refusal(Some(p))->0.reason == (Reason::BlockLength {
            family: Family::Pointwise,
            len: p.len() as usize,
            need: 120,
        }),
        p.len() == 120 && request_refusal(Some(p)) is Some ==> request_refusal(Some(p))->0.reason
            == (Reason::Pointwise { error: PointwisePlanError::OperationOutOfRange }),
        c.device.four_refused(c.x, c.y, c.z, c.out) is None ==> {
            &&& c.planned() is Err ==> c.refusal()->0.reason == (Reason::Pointwise {
                error: c.planned()->Err_0,
            })
            &&& c.planned() is Ok && c.refusal() is Some ==> c.refusal()->0.reason
                == (Reason::Absent { family: Family::Pointwise })
        },
{
}

} // verus!
