//! An open device behind its handle: its kernels, its buffers by sequence
//! number, and the work that an entry asks of it.

pub mod end;
pub mod open;
pub mod operate;
pub mod run;

use super::reason::{first, unless, Family, Part, Reason, Refusal};
use super::{
    split_buffer_handle, ACK_ERR_CLOSED, ACK_ERR_FOREIGN, ACK_ERR_FREED, ACK_ERR_NULL, ACK_ERR_SIZE,
    EMBEDDING_PUSH_BYTES, LOSS_PUSH_BYTES, ROWWISE_PUSH_BYTES, VQ_PUSH_BYTES,
};
use crate::batch::{Access, AccessKind};
use crate::context::{Buffer, BufferModel, Context, ContextModel};
use crate::kernel::{Kernel, KernelModel};
use crate::text::{append_decimal, decimal_text};
use std::collections::BTreeMap;
use vstd::prelude::*;
use vstd::string::*;

verus! {

/// Places for kernels in a device.
pub const SLOTS: usize = 40;

/// A kernel of the device, by what it computes.
#[derive(Clone, Copy, Debug, PartialEq, Eq, Structural)]
pub enum Slot {
    /// A BF16 product: aligned NN, NT, TN, TT, then the four edge variants.
    Coopmat(u32),
    /// A cast: f32 to bf16, then back.
    Cast(u32),
    MatmulF32,
    MatmulF32V2,
    /// The pointwise family by storage module; 0 holds f32 in every slot.
    Pointwise(u32),
    /// The first reduction kernel by storage module.
    Reduce(u32),
    /// The second reduction kernel by storage module.
    ReduceV2(u32),
    Rowwise,
    Loss,
    Embedding,
    Vq,
}

/// What a kernel is built with: its storage bindings, the bytes of its push
/// block, and the subgroup size it needs.
#[derive(Clone, Copy, Debug, PartialEq, Eq, Structural)]
pub struct Recipe {
    pub storage_buffers: u32,
    pub push_bytes: u32,
    pub subgroup: Option<u32>,
}

impl Slot {
    /// The slot names one of the kernels there are.
    pub open spec fn valid(self) -> bool {
        match self {
            Slot::Coopmat(i) => i < 8,
            Slot::Cast(i) => i < 2,
            Slot::Pointwise(i) => i < 16,
            Slot::Reduce(i) => i < 4,
            Slot::ReduceV2(i) => i < 4,
            _ => true,
        }
    }

    /// Where the kernel stands in the device; a device gives its kernels up in
    /// this order.
    pub open spec fn place(self) -> int {
        match self {
            Slot::Coopmat(i) => i as int,
            Slot::Cast(i) => 8 + i,
            Slot::MatmulF32 => 10,
            Slot::MatmulF32V2 => 11,
            Slot::Pointwise(i) => 12 + i,
            Slot::Reduce(i) => 28 + i,
            Slot::ReduceV2(i) => if i == 0 {
                35
            } else {
                31 + i
            },
            Slot::Rowwise => 36,
            Slot::Loss => 37,
            Slot::Embedding => 38,
            Slot::Vq => 39,
        }
    }

    fn index(&self) -> (r: usize)
        requires
            self.valid(),
        ensures
            r == self.place(),
            r < SLOTS,
    {
        match *self {
            Slot::Coopmat(i) => i as usize,
            Slot::Cast(i) => 8 + i as usize,
            Slot::MatmulF32 => 10,
            Slot::MatmulF32V2 => 11,
            Slot::Pointwise(i) => 12 + i as usize,
            Slot::Reduce(i) => 28 + i as usize,
            Slot::ReduceV2(i) => if i == 0 {
                35
            } else {
                31 + i as usize
            },
            Slot::Rowwise => 36,
            Slot::Loss => 37,
            Slot::Embedding => 38,
            Slot::Vq => 39,
        }
    }

    /// What the kernel is built with.
    pub open spec fn made_with(self) -> Recipe {
        match self {
            Slot::Coopmat(_) => Recipe { storage_buffers: 3, push_bytes: 40, subgroup: Some(64) },
            Slot::Cast(_) => Recipe { storage_buffers: 2, push_bytes: 4, subgroup: None },
            Slot::MatmulF32 => Recipe { storage_buffers: 3, push_bytes: 64, subgroup: None },
            Slot::MatmulF32V2 => Recipe { storage_buffers: 3, push_bytes: 64, subgroup: None },
            Slot::Pointwise(_) => Recipe { storage_buffers: 4, push_bytes: 120, subgroup: None },
            Slot::Reduce(_) => Recipe { storage_buffers: 2, push_bytes: 80, subgroup: None },
            Slot::ReduceV2(_) => Recipe { storage_buffers: 2, push_bytes: 96, subgroup: None },
            Slot::Rowwise => Recipe { storage_buffers: 4, push_bytes: 16, subgroup: None },
            Slot::Loss => Recipe { storage_buffers: 4, push_bytes: 20, subgroup: None },
            Slot::Embedding => Recipe { storage_buffers: 4, push_bytes: 16, subgroup: None },
            Slot::Vq => Recipe { storage_buffers: 6, push_bytes: 32, subgroup: None },
        }
    }

    /// What the kernel is built with.
    pub fn recipe(&self) -> (r: Recipe)
        ensures
            r == self.made_with(),
    {
        match *self {
            Slot::Coopmat(_) => Recipe { storage_buffers: 3, push_bytes: 40, subgroup: Some(64) },
            Slot::Cast(_) => Recipe { storage_buffers: 2, push_bytes: 4, subgroup: None },
            Slot::MatmulF32 | Slot::MatmulF32V2 => Recipe {
                storage_buffers: 3,
                push_bytes: crate::matmul_ops::PUSH_BYTES as u32,
                subgroup: None,
            },
            Slot::Pointwise(_) => Recipe {
                storage_buffers: crate::pointwise_ops::OPERANDS as u32,
                push_bytes: crate::pointwise_ops::PUSH_BYTES as u32,
                subgroup: None,
            },
            Slot::Reduce(_) => Recipe {
                storage_buffers: 2,
                push_bytes: crate::reduce_ops::PUSH_BYTES as u32,
                subgroup: None,
            },
            Slot::ReduceV2(_) => Recipe {
                storage_buffers: 2,
                push_bytes: crate::reduce_ops::PUSH_BYTES_V2 as u32,
                subgroup: None,
            },
            Slot::Rowwise => Recipe {
                storage_buffers: 4,
                push_bytes: ROWWISE_PUSH_BYTES as u32,
                subgroup: None,
            },
            Slot::Loss => Recipe {
                storage_buffers: 4,
                push_bytes: LOSS_PUSH_BYTES as u32,
                subgroup: None,
            },
            Slot::Embedding => Recipe {
                storage_buffers: 4,
                push_bytes: EMBEDDING_PUSH_BYTES as u32,
                subgroup: None,
            },
            Slot::Vq => Recipe {
                storage_buffers: 6,
                push_bytes: VQ_PUSH_BYTES as u32,
                subgroup: None,
            },
        }
    }

    /// What a failure to build the kernel is reported with.
    pub open spec fn failure_text(self) -> Seq<char> {
        match self {
            Slot::Coopmat(_) => "matmul pipeline: "@,
            Slot::Cast(_) => "cast pipeline: "@,
            Slot::MatmulF32 => "matmul_f32 pipeline: "@,
            Slot::MatmulF32V2 => "matmul_f32_v2 pipeline: "@,
            Slot::Pointwise(i) => if i == 0 {
                "pointwise pipeline: "@
            } else {
                "pointwise storage pipeline "@ + decimal_text(i as nat) + ": "@
            },
            Slot::Reduce(i) => if i == 0 {
                "reduce pipeline: "@
            } else {
                "reduce bf16 pipeline: "@
            },
            Slot::ReduceV2(i) => if i == 0 {
                "reduce_v2 pipeline: "@
            } else {
                "reduce bf16 pipeline: "@
            },
            Slot::Rowwise => "rowwise pipeline: "@,
            Slot::Loss => "loss pipeline: "@,
            Slot::Embedding => "embedding pipeline: "@,
            Slot::Vq => "vq: pipeline creation refused: "@,
        }
    }

    /// What a failure to build the kernel is reported with.
    pub fn failure_prefix(&self) -> (r: String)
        ensures
            r@ == self.failure_text(),
    {
        match *self {
            Slot::Coopmat(_) => String::from_str("matmul pipeline: "),
            Slot::Cast(_) => String::from_str("cast pipeline: "),
            Slot::MatmulF32 => String::from_str("matmul_f32 pipeline: "),
            Slot::MatmulF32V2 => String::from_str("matmul_f32_v2 pipeline: "),
            Slot::Pointwise(i) => if i == 0 {
                String::from_str("pointwise pipeline: ")
            } else {
                let mut s = String::from_str("pointwise storage pipeline ");
                append_decimal(&mut s, i as u64);
                s.append(": ");
                s
            },
            Slot::Reduce(i) => if i == 0 {
                String::from_str("reduce pipeline: ")
            } else {
                String::from_str("reduce bf16 pipeline: ")
            },
            Slot::ReduceV2(i) => if i == 0 {
                String::from_str("reduce_v2 pipeline: ")
            } else {
                String::from_str("reduce bf16 pipeline: ")
            },
            Slot::Rowwise => String::from_str("rowwise pipeline: "),
            Slot::Loss => String::from_str("loss pipeline: "),
            Slot::Embedding => String::from_str("embedding pipeline: "),
            Slot::Vq => String::from_str("vq: pipeline creation refused: "),
        }
    }
}

/// Two kernels never stand in one place.
pub proof fn law_slots_have_places_of_their_own(a: Slot, b: Slot)
    requires
        a.valid(),
        b.valid(),
        a.place() == b.place(),
    ensures
        a == b,
        0 <= a.place() < SLOTS,
{
}

/// One dispatch that an entry asks for: a kernel, the buffers bound to it in
/// order, its push block, its grid, and what it declares to read and write.
#[derive(Debug)]
pub struct Launch {
    pub slot: Slot,
    pub buffers: Vec<u32>,
    pub push: Vec<u8>,
    pub groups: [u32; 3],
    pub access: Vec<Access>,
}

#[verifier::ext_equal]
pub ghost struct LaunchModel {
    pub slot: Slot,
    pub buffers: Seq<u32>,
    pub push: Seq<u8>,
    pub groups: Seq<u32>,
    pub access: Seq<Access>,
}

impl View for Launch {
    type V = LaunchModel;

    open spec fn view(&self) -> LaunchModel {
        LaunchModel {
            slot: self.slot,
            buffers: self.buffers@,
            push: self.push@,
            groups: self.groups@,
            access: self.access@,
        }
    }
}

/// Bytes that an entry writes into a buffer before it dispatches.
#[derive(Debug)]
pub struct Image {
    pub buffer: u32,
    pub bytes: Vec<u8>,
    pub family: Family,
    pub part: Part,
}

#[verifier::ext_equal]
pub ghost struct ImageModel {
    pub buffer: u32,
    pub bytes: Seq<u8>,
    pub family: Family,
    pub part: Part,
}

impl View for Image {
    type V = ImageModel;

    open spec fn view(&self) -> ImageModel {
        ImageModel {
            buffer: self.buffer,
            bytes: self.bytes@,
            family: self.family,
            part: self.part,
        }
    }
}

impl ImageModel {
    /// What a failure to write the image is reported with.
    pub open spec fn failure_text(self) -> Seq<char> {
        self.family.text() + ": uploading the validated "@ + self.part.text() + ": "@
    }
}

impl Image {
    /// What a failure to write the image is reported with.
    pub fn failure_prefix(&self) -> (r: String)
        ensures
            r@ == self@.failure_text(),
    {
        let mut s = String::from_str(self.family.name());
        s.append(": uploading the validated ");
        s.append(self.part.name());
        s.append(": ");
        s
    }
}

/// What an accepted call does next.
#[derive(Debug)]
pub enum Step {
    /// Build this kernel, then make the same call again.
    Build(Slot),
    /// Write the images and record the launches, in order.
    Run(Vec<Image>, Vec<Launch>),
}

#[verifier::ext_equal]
pub ghost enum StepModel {
    Build(Slot),
    Run(Seq<ImageModel>, Seq<LaunchModel>),
}

pub open spec fn images(s: Seq<Image>) -> Seq<ImageModel> {
    Seq::new(s.len(), |i: int| s[i]@)
}

pub open spec fn launches(s: Seq<Launch>) -> Seq<LaunchModel> {
    Seq::new(s.len(), |i: int| s[i]@)
}

/// What a step's images leave in a buffer, if they write it: each image is
/// written whole, in order, so the last one stays.
pub open spec fn left_in(written: Seq<ImageModel>, buffer: u32) -> Option<Seq<u8>>
    decreases written.len(),
{
    if written.len() == 0 {
        None
    } else if written.last().buffer == buffer {
        Some(written.last().bytes)
    } else {
        left_in(written.drop_last(), buffer)
    }
}

impl View for Step {
    type V = StepModel;

    open spec fn view(&self) -> StepModel {
        match self {
            Step::Build(slot) => StepModel::Build(*slot),
            Step::Run(i, l) => StepModel::Run(images(i@), launches(l@)),
        }
    }
}

/// What an entry answers.
pub open spec fn answer(r: Result<Step, Refusal>) -> Result<StepModel, Refusal> {
    match r {
        Ok(step) => Ok(step@),
        Err(refusal) => Err(refusal),
    }
}

/// The step that records one launch and writes nothing.
pub open spec fn run_one(launch: LaunchModel) -> StepModel {
    StepModel::Run(Seq::empty(), seq![launch])
}

pub(crate) fn one_launch(launch: Launch) -> (r: Step)
    ensures
        r@ == run_one(launch@),
{
    let mut all: Vec<Launch> = Vec::new();
    all.push(launch);
    let none: Vec<Image> = Vec::new();
    proof {
        assert(launches(all@) =~= seq![launch@]);
        assert(images(none@) =~= Seq::<ImageModel>::empty());
    }
    Step::Run(none, all)
}

/// An open device: its context, its kernels, and its buffers by the sequence
/// number in their handles.
#[derive(Debug)]
pub struct AckDevice {
    id: u64,
    ctx: Context,
    kernels: Vec<Option<Kernel>>,
    buffers: BTreeMap<u32, Buffer>,
    next_buffer: u32,
    closed: bool,
    reduce_v1_only: bool,
}

/// What an `AckDevice` holds.
#[verifier::ext_equal]
pub ghost struct DeviceModel {
    pub id: u64,
    pub ctx: ContextModel,
    /// The kernels, each in its slot's place.
    pub kernels: Seq<Option<KernelModel>>,
    /// The live buffers by sequence number.
    pub buffers: Map<u32, BufferModel>,
    /// The next buffer's sequence number.
    pub next_buffer: u32,
    pub closed: bool,
    /// Every reduction keeps to the first kernel.
    pub reduce_v1_only: bool,
}

pub open spec fn kernel_models(kernels: Seq<Option<Kernel>>) -> Seq<Option<KernelModel>> {
    Seq::new(
        kernels.len(),
        |i: int|
            match kernels[i] {
                Some(k) => Some(k@),
                None => None,
            },
    )
}

pub open spec fn buffer_models(buffers: Map<u32, Buffer>) -> Map<u32, BufferModel> {
    Map::new(|s: u32| buffers.contains_key(s), |s: u32| buffers[s]@)
}

impl View for AckDevice {
    type V = DeviceModel;

    closed spec fn view(&self) -> DeviceModel {
        DeviceModel {
            id: self.id,
            ctx: self.ctx@,
            kernels: kernel_models(self.kernels@),
            buffers: buffer_models(self.buffers@),
            next_buffer: self.next_buffer,
            closed: self.closed,
            reduce_v1_only: self.reduce_v1_only,
        }
    }
}

/// The device that a handle's owner half names.
pub open spec fn owner_of(handle: u64) -> u64 {
    handle / 0x1_0000_0000
}

/// The sequence number in a handle.
pub open spec fn seq_of(handle: u64) -> u32 {
    (handle % 0x1_0000_0000) as u32
}

/// Every kernel is consistent and belongs to the context.
pub open spec fn own_kernels(kernels: Seq<Option<KernelModel>>, ctx_id: u64) -> bool {
    forall|i: int|
        0 <= i < kernels.len() ==> (#[trigger] kernels[i] matches Some(k) ==> k.wf() && k.ctx_id
            == ctx_id)
}

/// Every kernel is made as its slot says.
pub open spec fn made_kernels(kernels: Seq<Option<KernelModel>>) -> bool {
    forall|s: Slot|
        #![trigger s.place()]
        s.valid() ==> (kernels[s.place()] matches Some(k) ==> k.storage_buffers
            == s.made_with().storage_buffers && k.push_bytes == s.made_with().push_bytes)
}

/// Every buffer is a live buffer of the context, and no two are one.
pub open spec fn own_buffers(
    buffers: Map<u32, BufferModel>,
    ctx: ContextModel,
    next_buffer: u32,
) -> bool {
    &&& forall|s: u32| #[trigger]
        buffers.contains_key(s) ==> {
            &&& 0 < s < next_buffer
            &&& buffers[s].wf()
            &&& buffers[s].ctx_id == ctx.fixed.id
            &&& ctx.live.contains(buffers[s].id)
        }
    &&& forall|s: u32, t: u32|
        #![trigger buffers.contains_key(s), buffers.contains_key(t)]
        buffers.contains_key(s) && buffers.contains_key(t) && buffers[s].id == buffers[t].id ==> s
            == t
}

impl DeviceModel {
    /// The kernels and the buffers are the context's own.
    pub open spec fn wf(self) -> bool {
        &&& self.kernels.len() == SLOTS
        &&& own_kernels(self.kernels, self.ctx.fixed.id)
        &&& made_kernels(self.kernels)
        &&& self.id <= u32::MAX
        &&& self.next_buffer > 0
        &&& own_buffers(self.buffers, self.ctx, self.next_buffer)
    }

    /// The kernel in a slot exists.
    pub open spec fn has(self, slot: Slot) -> bool {
        self.kernels[slot.place()] is Some
    }

    /// Refuse a handle that names no live buffer of this device.
    pub open spec fn handle_refusal(self, handle: u64) -> Option<Refusal> {
        if handle == 0 {
            Some(Refusal { code: ACK_ERR_NULL, reason: Reason::Unnamed })
        } else if owner_of(handle) != self.id {
            Some(
                Refusal {
                    code: ACK_ERR_FOREIGN,
                    reason: Reason::ForeignBuffer {
                        raw: handle,
                        owner: owner_of(handle),
                        id: self.id,
                    },
                },
            )
        } else if !self.buffers.contains_key(seq_of(handle)) {
            Some(
                Refusal {
                    code: ACK_ERR_FREED,
                    reason: Reason::DeadBuffer { raw: handle, id: self.id },
                },
            )
        } else {
            None
        }
    }

    /// The first handle refused, of three.
    pub open spec fn three_refused(self, a: u64, b: u64, c: u64) -> Option<Refusal> {
        first(self.handle_refusal(a), first(self.handle_refusal(b), self.handle_refusal(c)))
    }

    /// The first handle refused, of four.
    pub open spec fn four_refused(self, a: u64, b: u64, c: u64, d: u64) -> Option<Refusal> {
        first(self.three_refused(a, b, c), self.handle_refusal(d))
    }

    /// The buffer a handle names.
    pub open spec fn buffer(self, handle: u64) -> BufferModel {
        self.buffers[seq_of(handle)]
    }

    /// A launch on the buffers that handles name, of which the first `reads`
    /// are read and the others written.
    pub open spec fn launch(
        self,
        slot: Slot,
        handles: Seq<u64>,
        reads: int,
        push: Seq<u8>,
        groups: Seq<u32>,
    ) -> LaunchModel {
        LaunchModel {
            slot,
            buffers: Seq::new(handles.len(), |i: int| seq_of(handles[i])),
            push,
            groups,
            access: Seq::new(
                handles.len(),
                |i: int|
                    Access {
                        buffer: self.buffer(handles[i]).id,
                        kind: if i < reads {
                            AccessKind::Read
                        } else {
                            AccessKind::Write
                        },
                    },
            ),
        }
    }

    /// Refuse a buffer that holds fewer than `need` f32 elements.
    pub open spec fn room_refusal(
        self,
        handle: u64,
        need: int,
        family: Family,
        part: Part,
    ) -> Option<Refusal> {
        let have = self.buffer(handle).bytes / 4;
        unless(
            have >= need,
            ACK_ERR_SIZE,
            Reason::TooSmall { family, part, have, need: need as u64 },
        )
    }

    /// Refuse a buffer that is not exactly the image written into it.
    pub open spec fn image_refusal(
        self,
        handle: u64,
        need: int,
        family: Family,
        part: Part,
    ) -> Option<Refusal> {
        let have = self.buffer(handle).bytes;
        unless(
            have == need,
            ACK_ERR_SIZE,
            Reason::ImageMismatch { family, part, have, need: need as u64 },
        )
    }
}

/// Refuse a buffer that holds fewer than `need` f32 elements.
pub(super) fn check_room(b: &Buffer, need: usize, family: Family, part: Part) -> (r: Result<
    (),
    Refusal,
>)
    ensures
        b@.bytes / 4 >= need ==> r is Ok,
        b@.bytes / 4 < need ==> r is Err && r->Err_0 == (Refusal {
            code: ACK_ERR_SIZE,
            reason: Reason::TooSmall { family, part, have: b@.bytes / 4, need: need as u64 },
        }),
{
    let have: u64 = b.size() / 4;
    if have < need as u64 {
        return Err(
            Refusal {
                code: ACK_ERR_SIZE,
                reason: Reason::TooSmall { family, part, have, need: need as u64 },
            },
        );
    }
    Ok(())
}

/// Refuse a buffer that is not exactly the image written into it.
pub(super) fn check_image(b: &Buffer, need: usize, family: Family, part: Part) -> (r: Result<
    (),
    Refusal,
>)
    ensures
        b@.bytes == need ==> r is Ok,
        b@.bytes != need ==> r is Err && r->Err_0 == (Refusal {
            code: ACK_ERR_SIZE,
            reason: Reason::ImageMismatch { family, part, have: b@.bytes, need: need as u64 },
        }),
{
    let have: u64 = b.size();
    if have != need as u64 {
        return Err(
            Refusal {
                code: ACK_ERR_SIZE,
                reason: Reason::ImageMismatch { family, part, have, need: need as u64 },
            },
        );
    }
    Ok(())
}

/// The block a caller passed, if it passed one.
pub open spec fn block_of(plan: Option<&[u8]>) -> Option<Seq<u8>> {
    match plan {
        Some(p) => Some(p@),
        None => None,
    }
}

/// Refuse a device handle that names no open device.
pub open spec fn device_refusal(dev: u64, found: Option<DeviceModel>) -> Option<Refusal> {
    if dev == 0 {
        Some(Refusal { code: ACK_ERR_NULL, reason: Reason::Unnamed })
    } else {
        match found {
            None => Some(Refusal { code: ACK_ERR_CLOSED, reason: Reason::NotOpen { id: dev } }),
            Some(d) => unless(!d.closed, ACK_ERR_CLOSED, Reason::DeviceClosed { id: d.id }),
        }
    }
}

pub open spec fn found_model(found: Option<&AckDevice>) -> Option<DeviceModel> {
    match found {
        Some(d) => Some(d@),
        None => None,
    }
}

/// The device that a handle was found to name, unless it is closed. The handle
/// is looked up, never dereferenced.
pub fn open_device<'a>(dev: u64, found: Option<&'a AckDevice>) -> (r: Result<
    &'a AckDevice,
    Refusal,
>)
    ensures
        match device_refusal(dev, found_model(found)) {
            Some(refusal) => r is Err && r->Err_0 == refusal,
            None => found is Some && r is Ok && r->Ok_0 == found->0,
        },
{
    if dev == 0 {
        return Err(Refusal { code: ACK_ERR_NULL, reason: Reason::Unnamed });
    }
    match found {
        None => Err(Refusal { code: ACK_ERR_CLOSED, reason: Reason::NotOpen { id: dev } }),
        Some(d) => if d.closed {
            Err(Refusal { code: ACK_ERR_CLOSED, reason: Reason::DeviceClosed { id: d.id } })
        } else {
            Ok(d)
        },
    }
}

impl AckDevice {
    /// The device is consistent.
    pub closed spec fn wf(&self) -> bool {
        self@.wf() && self.ctx.wf()
    }

    /// What `wf` says of the model.
    pub proof fn lemma_wf(&self)
        requires
            self.wf(),
        ensures
            self@.wf(),
            self@.ctx.wf(),
    {
        self.ctx.lemma_wf();
    }

    /// The device's id, which is its handle.
    pub fn id(&self) -> (r: u64)
        ensures
            r == self@.id,
    {
        self.id
    }

    /// The sequence number that the next buffer takes.
    pub fn next_sequence(&self) -> (r: u32)
        ensures
            r == self@.next_buffer,
    {
        self.next_buffer
    }

    /// Buffers that were allocated and not freed.
    pub fn live_buffers(&self) -> (r: usize)
        ensures
            r == self@.buffers.dom().len(),
            self@.buffers.dom().finite(),
    {
        proof {
            assert(self@.buffers.dom() =~= self.buffers@.dom());
        }
        self.buffers.len()
    }

    /// The runtime behind the device.
    pub fn context(&self) -> (r: &Context)
        ensures
            r@ == self@.ctx,
    {
        &self.ctx
    }

    /// Every reduction keeps to the first kernel.
    pub fn reduce_v1_only(&self) -> (r: bool)
        ensures
            r == self@.reduce_v1_only,
    {
        self.reduce_v1_only
    }

    /// The device's state is unknown, or the device is lost.
    pub fn is_poisoned(&self) -> (r: bool)
        ensures
            r == !self@.ctx.ledger.usable(),
    {
        self.ctx.is_poisoned()
    }

    /// A buffer handle resolved against the device that must own it.
    pub(super) fn buffer_of(&self, handle: u64) -> (r: Result<&Buffer, Refusal>)
        ensures
            match self@.handle_refusal(handle) {
                Some(refusal) => r is Err && r->Err_0 == refusal,
                None => r is Ok && r->Ok_0@ == self@.buffer(handle),
            },
    {
        if handle == 0 {
            return Err(Refusal { code: ACK_ERR_NULL, reason: Reason::Unnamed });
        }
        let (owner, seq) = split_buffer_handle(handle);
        if owner != self.id {
            return Err(
                Refusal {
                    code: ACK_ERR_FOREIGN,
                    reason: Reason::ForeignBuffer { raw: handle, owner, id: self.id },
                },
            );
        }
        match self.buffers.get(&seq) {
            Some(b) => Ok(b),
            None => Err(
                Refusal {
                    code: ACK_ERR_FREED,
                    reason: Reason::DeadBuffer { raw: handle, id: self.id },
                },
            ),
        }
    }

    /// A launch on the buffers that resolved handles name, of which the first
    /// `reads` are read and the others written.
    pub(super) fn launch_on(
        &self,
        slot: Slot,
        handles: &[u64],
        reads: usize,
        push: Vec<u8>,
        groups: [u32; 3],
    ) -> (r: Launch)
        requires
            forall|i: int|
                0 <= i < handles@.len() ==> self@.handle_refusal(#[trigger] handles@[i]) is None,
        ensures
            r@ == self@.launch(slot, handles@, reads as int, push@, groups@),
    {
        let ghost model = self@.launch(slot, handles@, reads as int, push@, groups@);
        let mut buffers: Vec<u32> = Vec::new();
        let mut access: Vec<Access> = Vec::new();
        let mut i: usize = 0;
        while i < handles.len()
            invariant
                i <= handles.len(),
                model == self@.launch(slot, handles@, reads as int, push@, groups@),
                forall|j: int|
                    0 <= j < handles@.len() ==> self@.handle_refusal(#[trigger] handles@[j])
                        is None,
                buffers@ =~= model.buffers.take(i as int),
                access@ =~= model.access.take(i as int),
            decreases handles.len() - i,
        {
            let handle: u64 = handles[i];
            proof {
                assert(self@.handle_refusal(handles@[i as int]) is None);
            }
            match self.buffer_of(handle) {
                Ok(b) => {
                    buffers.push(split_buffer_handle(handle).1);
                    access.push(
                        if i < reads {
                            Access::read(b.id())
                        } else {
                            Access::write(b.id())
                        },
                    );
                },
                Err(_) => {},
            }
            i += 1;
        }
        let launch = Launch { slot, buffers, push, groups, access };
        proof {
            assert(launch@ =~= model);
        }
        launch
    }

    /// The kernel in a slot exists.
    pub(super) fn holds(&self, slot: Slot) -> (r: bool)
        requires
            self.wf(),
            slot.valid(),
        ensures
            r == self@.has(slot),
    {
        let place: usize = slot.index();
        self.kernels[place].is_some()
    }
}

/// A handle that resolves names a live buffer of the context, which binds.
pub proof fn law_resolved_handles_bind(d: DeviceModel, handle: u64)
    requires
        d.wf(),
        d.handle_refusal(handle) is None,
    ensures
        d.ctx.buffer_refusal(d.buffer(handle)) is None,
{
    assert(d.buffers.contains_key(seq_of(handle)));
}

/// Two handles that resolve to one buffer are one handle.
pub proof fn law_one_handle_names_a_buffer(d: DeviceModel, g: u64, h: u64)
    requires
        d.wf(),
        d.handle_refusal(g) is None,
        d.handle_refusal(h) is None,
        d.buffer(g).id == d.buffer(h).id,
    ensures
        g == h,
{
    assert(d.buffers.contains_key(seq_of(g)) && d.buffers.contains_key(seq_of(h)));
}

/// A handle is its owner's number above the buffer's, 32 bits each.
pub proof fn law_handle_is_owner_and_number(handle: u64)
    ensures
        handle == owner_of(handle) * 0x1_0000_0000 + seq_of(handle),
        owner_of(handle) <= u32::MAX,
{
}

/// A launch binds the buffers of its handles in the order given, declares the
/// first `reads` of them read and every later one written, and carries the
/// kernel, the push block and the grid unchanged.
pub proof fn law_launch_binds_its_handles_in_order(
    d: DeviceModel,
    slot: Slot,
    handles: Seq<u64>,
    reads: int,
    push: Seq<u8>,
    groups: Seq<u32>,
    i: int,
)
    requires
        0 <= i < handles.len(),
    ensures
        ({
            let l = d.launch(slot, handles, reads, push, groups);
            &&& l.slot == slot
            &&& l.push == push
            &&& l.groups == groups
            &&& l.buffers.len() == handles.len()
            &&& l.access.len() == handles.len()
            &&& l.buffers[i] == handles[i] % 0x1_0000_0000
            &&& l.access[i].buffer == d.buffers[(handles[i] % 0x1_0000_0000) as u32].id
            &&& i < reads ==> l.access[i].kind == AccessKind::Read
            &&& i >= reads ==> l.access[i].kind == AccessKind::Write
        }),
{
}

/// A handle resolves exactly when it is not null, names this device in its upper
/// half, and names a live buffer of the device in its lower one; otherwise the
/// code says which of the three fails first.
pub proof fn law_handle_resolves_exactly_when_it_names_a_live_buffer(d: DeviceModel, handle: u64)
    ensures
        d.handle_refusal(handle) is None <==> handle != 0 && handle / 0x1_0000_0000 == d.id
            && d.buffers.contains_key((handle % 0x1_0000_0000) as u32),
        handle == 0 ==> d.handle_refusal(handle)->0.code == -1,
        handle != 0 && handle / 0x1_0000_0000 != d.id ==> d.handle_refusal(handle)->0.code == -7,
        handle != 0 && handle / 0x1_0000_0000 == d.id && !d.buffers.contains_key(
            (handle % 0x1_0000_0000) as u32,
        ) ==> d.handle_refusal(handle)->0.code == -8,
{
}

/// Several handles are refused exactly when one of them is, and as the first one
/// that is.
pub proof fn law_first_refused_handle_answers(d: DeviceModel, a: u64, b: u64, c: u64, e: u64)
    ensures
        d.three_refused(a, b, c) is None <==> d.handle_refusal(a) is None && d.handle_refusal(b)
            is None && d.handle_refusal(c) is None,
        d.four_refused(a, b, c, e) is None <==> d.three_refused(a, b, c) is None
            && d.handle_refusal(e) is None,
        d.handle_refusal(a) is Some ==> d.three_refused(a, b, c) == d.handle_refusal(a),
        d.handle_refusal(a) is None && d.handle_refusal(b) is Some ==> d.three_refused(a, b, c)
            == d.handle_refusal(b),
        d.handle_refusal(a) is None && d.handle_refusal(b) is None && d.handle_refusal(c) is Some
            ==> d.three_refused(a, b, c) == d.handle_refusal(c),
        d.three_refused(a, b, c) is Some ==> d.four_refused(a, b, c, e) == d.three_refused(a, b, c),
        d.three_refused(a, b, c) is None ==> d.four_refused(a, b, c, e) == d.handle_refusal(e),
{
}

/// An entry goes on exactly where its device handle is not null and names a
/// device that is there and not closed.
pub proof fn law_only_an_open_device_is_served(dev: u64, found: Option<DeviceModel>)
    ensures
        device_refusal(dev, found) is None <==> dev != 0 && found is Some && !found->0.closed,
        dev == 0 ==> device_refusal(dev, found)->0.code == -1,
        dev != 0 && (found is None || found->0.closed) ==> device_refusal(dev, found)->0.code == -6,
{
}

/// A buffer has room for `need` values of four bytes exactly when that many bytes
/// lie in it, and takes an image exactly when it is as long as the image.
pub proof fn law_room_is_counted_in_whole_values(
    d: DeviceModel,
    handle: u64,
    need: int,
    family: Family,
    part: Part,
)
    ensures
        d.room_refusal(handle, need, family, part) is None <==> 4 * need <= d.buffer(handle).bytes,
        d.room_refusal(handle, need, family, part) is Some ==> d.room_refusal(
            handle,
            need,
            family,
            part,
        )->0.code == -4,
        d.image_refusal(handle, need, family, part) is None <==> d.buffer(handle).bytes == need,
        d.image_refusal(handle, need, family, part) is Some ==> d.image_refusal(
            handle,
            need,
            family,
            part,
        )->0.code == -4,
{
}

/// What images leave in a buffer is what the last of them that goes there holds,
/// and nothing where none goes there.
pub proof fn law_last_image_stays(written: Seq<ImageModel>, buffer: u32)
    ensures
        left_in(written, buffer) is None <==> forall|i: int|
            0 <= i < written.len() ==> #[trigger] written[i].buffer != buffer,
        forall|i: int|
            0 <= i < written.len() && #[trigger] written[i].buffer == buffer && (forall|j: int|
                i < j < written.len() ==> #[trigger] written[j].buffer != buffer) ==> left_in(
                written,
                buffer,
            ) == Some(written[i].bytes),
    decreases written.len(),
{
    if written.len() > 0 {
        let before = written.drop_last();
        law_last_image_stays(before, buffer);
        let n = written.len() - 1;
        if written[n].buffer != buffer {
            if left_in(before, buffer) is None {
                assert forall|i: int| 0 <= i < written.len() implies #[trigger] written[i].buffer
                    != buffer by {
                    if i < n {
                        assert(before[i].buffer != buffer);
                    }
                }
            } else {
                let i = choose|i: int| 0 <= i < before.len() && #[trigger] before[i].buffer == buffer;
                assert(written[i].buffer == buffer);
            }
            assert forall|i: int|
                0 <= i < written.len() && #[trigger] written[i].buffer == buffer && (forall|j: int|
                    i < j < written.len() ==> #[trigger] written[j].buffer != buffer) implies left_in(
                written,
                buffer,
            ) == Some(written[i].bytes) by {
                assert(before[i] == written[i]);
                assert forall|j: int| i < j < before.len() implies #[trigger] before[j].buffer
                    != buffer by {
                    assert(written[j].buffer != buffer);
                }
            }
        }
    }
}

/// What each kernel is built with: as many bindings as its family's launches
/// have buffers, and room for exactly the push block of its family.
pub proof fn law_recipes_fit_their_families(s: Slot)
    ensures
        s is Coopmat ==> s.made_with().storage_buffers == 3 && s.made_with().push_bytes == 40
            && s.made_with().subgroup == Some(64u32),
        s is Cast ==> s.made_with().storage_buffers == 2 && s.made_with().push_bytes == 4,
        s is MatmulF32 || s is MatmulF32V2 ==> s.made_with().storage_buffers == 3
            && s.made_with().push_bytes == 64,
        s is Pointwise ==> s.made_with().storage_buffers == 4 && s.made_with().push_bytes == 120,
        s is Reduce ==> s.made_with().storage_buffers == 2 && s.made_with().push_bytes == 80,
        s is ReduceV2 ==> s.made_with().storage_buffers == 2 && s.made_with().push_bytes == 96,
        s is Rowwise || s is Embedding ==> s.made_with().storage_buffers == 4
            && s.made_with().push_bytes == 16,
        s is Loss ==> s.made_with().storage_buffers == 4 && s.made_with().push_bytes == 20,
        s is Vq ==> s.made_with().storage_buffers == 6 && s.made_with().push_bytes == 32,
        !(s is Coopmat) ==> s.made_with().subgroup is None,
{
}

/// A kernel that cannot be built is told of by the family it belongs to, and an
/// image that cannot be written by its family and its part.
pub proof fn law_failures_are_told_by_family(i: u32, m: ImageModel)
    ensures
        Slot::Coopmat(i).failure_text() == "matmul pipeline: "@,
        Slot::Cast(i).failure_text() == "cast pipeline: "@,
        Slot::MatmulF32.failure_text() == "matmul_f32 pipeline: "@,
        Slot::MatmulF32V2.failure_text() == "matmul_f32_v2 pipeline: "@,
        Slot::Pointwise(0).failure_text() == "pointwise pipeline: "@,
        i > 0 ==> Slot::Pointwise(i).failure_text() == "pointwise storage pipeline "@
            + decimal_text(i as nat) + ": "@,
        Slot::Reduce(0).failure_text() == "reduce pipeline: "@,
        Slot::ReduceV2(0).failure_text() == "reduce_v2 pipeline: "@,
        i > 0 ==> Slot::Reduce(i).failure_text() == "reduce bf16 pipeline: "@,
        i > 0 ==> Slot::ReduceV2(i).failure_text() == "reduce bf16 pipeline: "@,
        Slot::Rowwise.failure_text() == "rowwise pipeline: "@,
        Slot::Loss.failure_text() == "loss pipeline: "@,
        Slot::Embedding.failure_text() == "embedding pipeline: "@,
        Slot::Vq.failure_text() == "vq: pipeline creation refused: "@,
        m.failure_text() == m.family.text() + ": uploading the validated "@ + m.part.text()
            + ": "@,
{
}

/// A refused handle tells itself and the device: whose buffer it is, or that it
/// is not live; a refused device tells its handle.
pub proof fn law_refused_handles_say_why(
    d: DeviceModel,
    handle: u64,
    dev: u64,
    need: int,
    family: Family,
    part: Part,
)
    ensures
        d.handle_refusal(0)->0.reason is Unnamed,
        handle != 0 && owner_of(handle) != d.id ==> d.handle_refusal(handle)->0.reason
            == (Reason::ForeignBuffer { raw: handle, owner: owner_of(handle), id: d.id }),
        handle != 0 && owner_of(handle) == d.id && !d.buffers.contains_key(seq_of(handle))
            ==> d.handle_refusal(handle)->0.reason == (Reason::DeadBuffer {
            raw: handle,
            id: d.id,
        }),
        device_refusal(0, Some(d))->0.reason is Unnamed,
        dev != 0 ==> device_refusal(dev, None)->0.reason == (Reason::NotOpen { id: dev }),
        dev != 0 && d.closed ==> device_refusal(dev, Some(d))->0.reason == (Reason::DeviceClosed {
            id: d.id,
        }),
        d.buffer(handle).bytes / 4 < need ==> d.room_refusal(handle, need, family, part)->0.reason
            == (Reason::TooSmall {
            family,
            part,
            have: d.buffer(handle).bytes / 4,
            need: need as u64,
        }),
        d.buffer(handle).bytes != need ==> d.image_refusal(handle, need, family, part)->0.reason
            == (Reason::ImageMismatch {
            family,
            part,
            have: d.buffer(handle).bytes,
            need: need as u64,
        }),
{
}

} // verus!
