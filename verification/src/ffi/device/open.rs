//! Opening a device: the kernels it is built with, one after another, and what
//! is given up when one cannot be built; and the end of a device.

use super::run::{report, Failed};
use super::{made_kernels, own_buffers, own_kernels, AckDevice, DeviceModel, Slot, SLOTS};
use crate::context::{BufferModel, Context, ContextModel};
use crate::driver::Reply;
use crate::error::Failure;
use crate::ffi::reason::{unless, Reason, Refusal};
use crate::ffi::ACK_ERR_UNSUPPORTED_OP;
use crate::kernel::{BuildModel, BuildNext, BuildOutcome, Kernel, KernelBuild, KernelModel};
use std::collections::BTreeMap;
use vstd::prelude::*;
use vstd::string::*;

verus! {

/// The device handles of a process: counted from one, and never used twice.
#[derive(Debug)]
pub struct Registry {
    next_device: u64,
}

impl Registry {
    /// The next device's handle.
    pub closed spec fn next(&self) -> u64 {
        self.next_device
    }

    pub open spec fn wf(&self) -> bool {
        1 <= self.next() <= 0x1_0000_0000
    }

    pub fn new() -> (r: Self)
        ensures
            r.wf(),
            r.next() == 1,
    {
        Registry { next_device: 1 }
    }

    /// A handle for a new device. The owner half of a buffer handle is 32 bits,
    /// and that is how many devices there can be.
    pub fn take(&mut self) -> (r: Result<u64, Refusal>)
        requires
            old(self).wf(),
        ensures
            final(self).wf(),
            match unless(
                old(self).next() <= u32::MAX,
                ACK_ERR_UNSUPPORTED_OP,
                Reason::NoDeviceHandle,
            ) {
                Some(refusal) => r is Err && r->Err_0 == refusal && final(self).next() == old(
                    self,
                ).next(),
                None => r is Ok && r->Ok_0 == old(self).next() && final(self).next() == old(
                    self,
                ).next() + 1,
            },
    {
        if self.next_device > u32::MAX as u64 {
            return Err(
                Refusal { code: ACK_ERR_UNSUPPORTED_OP, reason: Reason::NoDeviceHandle },
            );
        }
        let id: u64 = self.next_device;
        self.next_device = id + 1;
        Ok(id)
    }
}

/// The kernels of the BF16 product, where the device has them.
pub open spec fn product_slots(bf16: bool) -> Seq<Slot> {
    if bf16 {
        Seq::new(8, |i: int| Slot::Coopmat(i as u32))
    } else {
        Seq::empty()
    }
}

/// The two casts.
pub open spec fn cast_slots() -> Seq<Slot> {
    seq![Slot::Cast(0), Slot::Cast(1)]
}

/// The kernels that every device has one of.
pub open spec fn single_slots() -> Seq<Slot> {
    seq![
        Slot::MatmulF32,
        Slot::MatmulF32V2,
        Slot::Pointwise(0),
        Slot::Reduce(0),
        Slot::ReduceV2(0),
        Slot::Rowwise,
        Slot::Loss,
        Slot::Embedding,
    ]
}

/// The kernels a device is opened with, in the order they are built.
pub open spec fn opening_slots(bf16: bool) -> Seq<Slot> {
    product_slots(bf16) + cast_slots() + single_slots()
}

/// The kernels a device is opened with, in the order they are built.
pub fn opening_list(bf16: bool) -> (r: Vec<Slot>)
    ensures
        r@ == opening_slots(bf16),
{
    let mut list: Vec<Slot> = Vec::new();
    if bf16 {
        let mut i: u32 = 0;
        while i < 8
            invariant
                i <= 8,
                list@ == product_slots(true).take(i as int),
            decreases 8 - i,
        {
            list.push(Slot::Coopmat(i));
            proof {
                assert(list@ =~= product_slots(true).take(i + 1));
            }
            i += 1;
        }
        proof {
            assert(list@ =~= product_slots(true));
        }
    }
    list.push(Slot::Cast(0));
    list.push(Slot::Cast(1));
    list.push(Slot::MatmulF32);
    list.push(Slot::MatmulF32V2);
    list.push(Slot::Pointwise(0));
    list.push(Slot::Reduce(0));
    list.push(Slot::ReduceV2(0));
    list.push(Slot::Rowwise);
    list.push(Slot::Loss);
    list.push(Slot::Embedding);
    proof {
        assert(list@ =~= opening_slots(bf16));
    }
    list
}

impl DeviceModel {
    /// What a slot's kernel is built to on this device.
    pub open spec fn plan_of(self, slot: Slot) -> crate::kernel::KernelPlan {
        let r = slot.made_with();
        self.ctx.kernel_plan(r.storage_buffers, r.push_bytes, r.subgroup)
    }

    /// The descriptors of a slot's kernel can be counted on this device.
    pub open spec fn can_build(self, slot: Slot) -> bool {
        self.plan_of(slot).wf()
    }

    /// Why a slot's kernel is not even begun, where it is not.
    pub open spec fn build_failure(self, slot: Slot, spirv: Seq<u8>) -> Option<Failure> {
        let r = slot.made_with();
        match self.ctx.build_refusal(r.push_bytes, r.subgroup) {
            Some(e) => Some(e),
            None => match crate::kernel::spirv_words(spirv) {
                Some(_) => None,
                None => Some(Failure::Io(crate::kernel::spirv_refusal(spirv))),
            },
        }
    }
}

/// Where the build of a slot's kernel stands.
#[derive(Debug)]
pub enum SlotNext {
    Pending(KernelBuild),
    /// The kernel is in its place.
    Built,
    Refused(Failed),
}

impl AckDevice {
    /// A device that has a context and nothing else yet, not even a handle.
    pub fn fresh(ctx: Context, reduce_v1_only: bool) -> (r: Self)
        requires
            ctx.wf(),
        ensures
            r.wf(),
            r@ == (DeviceModel {
                id: 0,
                ctx: ctx@,
                kernels: Seq::new(SLOTS as nat, |i: int| None),
                buffers: Map::empty(),
                next_buffer: 1,
                closed: false,
                reduce_v1_only,
            }),
    {
        let mut kernels: Vec<Option<Kernel>> = Vec::new();
        let mut i: usize = 0;
        while i < SLOTS
            invariant
                i <= SLOTS,
                kernels@.len() == i,
                forall|j: int| 0 <= j < i ==> #[trigger] kernels@[j] is None,
            decreases SLOTS - i,
        {
            kernels.push(None);
            i += 1;
        }
        let d = AckDevice {
            id: 0,
            ctx,
            kernels,
            buffers: BTreeMap::new(),
            next_buffer: 1,
            closed: false,
            reduce_v1_only,
        };
        proof {
            assert(d@.kernels =~= Seq::new(SLOTS as nat, |i: int| None::<KernelModel>));
            assert(d@.buffers =~= Map::<u32, BufferModel>::empty());
            assert forall|s: Slot| #![trigger s.place()] s.valid() implies d@.kernels[s.place()]
                is None by {
                super::law_slots_have_places_of_their_own(s, s);
            }
            assert(made_kernels(d@.kernels));
            assert(own_kernels(d@.kernels, d@.ctx.fixed.id));
        }
        d
    }

    /// Whether the descriptors of a slot's kernel can be counted.
    pub fn can_build(&self, slot: Slot) -> (r: bool)
        ensures
            r == self@.can_build(slot),
    {
        let recipe = slot.recipe();
        let sets: u32 = self.ctx.sets_per_kernel_pool();
        let arena: u64 = if sets < 1 {
            1
        } else {
            sets as u64
        };
        proof {
            assert(2 * arena * recipe.storage_buffers <= 2 * 0xffff_ffff * 6) by (nonlinear_arith)
                requires
                    arena <= 0xffff_ffff,
                    recipe.storage_buffers <= 6,
            ;
        }
        2 * arena * (recipe.storage_buffers as u64) <= u32::MAX as u64
    }

    /// Begin to build a slot's kernel.
    pub fn build(&self, slot: Slot, spirv: &[u8]) -> (r: Result<KernelBuild, Failed>)
        requires
            self.wf(),
            self@.can_build(slot),
        ensures
            match self@.build_failure(slot, spirv@) {
                Some(e) => r is Err && r->Err_0@ == e.reported(slot.failure_text()),
                None => r is Ok && r->Ok_0@ == (BuildModel {
                    plan: self@.plan_of(slot),
                    stage: crate::kernel::BuildStage::Module,
                    words: crate::kernel::spirv_words(spirv@)->0,
                }),
            },
    {
        let recipe = slot.recipe();
        match self.ctx.kernel_with_subgroup(
            spirv,
            recipe.storage_buffers,
            recipe.push_bytes,
            recipe.subgroup,
        ) {
            Ok(b) => Ok(b),
            Err(e) => {
                let doing = slot.failure_prefix();
                Err(report(doing.as_str(), &e))
            },
        }
    }

    /// Take the reply to a build's call; a kernel that is built is put in its
    /// place.
    pub fn advance_build(&mut self, slot: Slot, b: KernelBuild, reply: Reply) -> (r: SlotNext)
        requires
            old(self).wf(),
            slot.valid(),
            !old(self)@.has(slot),
            old(self)@.can_build(slot),
            b@.plan == old(self)@.plan_of(slot),
            b@.next_call().admits(reply),
        ensures
            final(self).wf(),
            ({
                let (ledger, o) = b@.after(old(self)@.ctx.ledger, reply);
                let ctx = ContextModel { ledger, ..old(self)@.ctx };
                match o {
                    BuildOutcome::Pending(c) => {
                        &&& r is Pending
                        &&& r->Pending_0@ == c
                        &&& final(self)@ == old(self)@.with_context(ctx)
                    },
                    BuildOutcome::Built(k) => {
                        &&& r is Built
                        &&& final(self)@ == old(self)@.with_kernel(slot, k, ctx)
                    },
                    BuildOutcome::Refused(e) => {
                        &&& r is Refused
                        &&& r->Refused_0@ == e.reported(slot.failure_text())
                        &&& final(self)@ == old(self)@.with_context(ctx)
                    },
                }
            }),
            r matches SlotNext::Pending(c) ==> c@.plan == final(self)@.plan_of(slot),
    {
        let ghost before = self@;
        let ghost model = b@;
        match self.ctx.advance_kernel(b, reply) {
            BuildNext::Pending(c) => {
                proof {
                    assert(self@ =~= before.with_context(self.ctx@));
                }
                SlotNext::Pending(c)
            },
            BuildNext::Built(k) => {
                let ghost built = k@;
                let place: usize = slot.index();
                self.kernels[place] = Some(k);
                proof {
                    let after = before.with_kernel(slot, built, self.ctx@);
                    assert(self@.kernels =~= after.kernels);
                    assert(self@ =~= after);
                    assert forall|s: Slot| #![trigger s.place()] s.valid() implies (
                    after.kernels[s.place()] matches Some(j) ==> j.storage_buffers
                        == s.made_with().storage_buffers && j.push_bytes
                        == s.made_with().push_bytes) by {
                        if s.place() == slot.place() {
                            super::law_slots_have_places_of_their_own(s, slot);
                        }
                    }
                    assert(own_kernels(after.kernels, after.ctx.fixed.id));
                }
                SlotNext::Built
            },
            BuildNext::Refused(e) => {
                proof {
                    assert(self@ =~= before.with_context(self.ctx@));
                }
                let doing = slot.failure_prefix();
                SlotNext::Refused(report(doing.as_str(), &e))
            },
        }
    }
}

/// Every place's slot, in the order a device gives its kernels up.
pub open spec fn place_slot(i: int) -> Slot {
    if i < 8 {
        Slot::Coopmat(i as u32)
    } else if i < 10 {
        Slot::Cast((i - 8) as u32)
    } else if i == 10 {
        Slot::MatmulF32
    } else if i == 11 {
        Slot::MatmulF32V2
    } else if i < 28 {
        Slot::Pointwise((i - 12) as u32)
    } else if i < 32 {
        Slot::Reduce((i - 28) as u32)
    } else if i < 35 {
        Slot::ReduceV2((i - 31) as u32)
    } else if i == 35 {
        Slot::ReduceV2(0)
    } else if i == 36 {
        Slot::Rowwise
    } else if i == 37 {
        Slot::Loss
    } else if i == 38 {
        Slot::Embedding
    } else {
        Slot::Vq
    }
}

/// Every slot, in the order a device gives its kernels up.
pub fn every_slot() -> (r: Vec<Slot>)
    ensures
        r@ == Seq::new(SLOTS as nat, |i: int| place_slot(i)),
        forall|i: int| 0 <= i < SLOTS ==> (#[trigger] r@[i]).valid() && r@[i].place() == i,
{
    let mut list: Vec<Slot> = Vec::new();
    let mut i: u32 = 0;
    while i < SLOTS as u32
        invariant
            i <= SLOTS,
            list@.len() == i,
            forall|j: int| 0 <= j < i ==> #[trigger] list@[j] == place_slot(j),
        decreases SLOTS - i,
    {
        list.push(
            if i < 8 {
                Slot::Coopmat(i)
            } else if i < 10 {
                Slot::Cast(i - 8)
            } else if i == 10 {
                Slot::MatmulF32
            } else if i == 11 {
                Slot::MatmulF32V2
            } else if i < 28 {
                Slot::Pointwise(i - 12)
            } else if i < 32 {
                Slot::Reduce(i - 28)
            } else if i < 35 {
                Slot::ReduceV2(i - 31)
            } else if i == 35 {
                Slot::ReduceV2(0)
            } else if i == 36 {
                Slot::Rowwise
            } else if i == 37 {
                Slot::Loss
            } else if i == 38 {
                Slot::Embedding
            } else {
                Slot::Vq
            },
        );
        i += 1;
    }
    proof {
        assert(list@ =~= Seq::new(SLOTS as nat, |i: int| place_slot(i)));
    }
    list
}

impl DeviceModel {
    /// The device without a slot's kernel, which is destroyed if it is there.
    pub open spec fn without(self, slot: Slot) -> DeviceModel {
        match self.kernels[slot.place()] {
            Some(k) => DeviceModel {
                ctx: self.ctx.without_kernel(k),
                kernels: self.kernels.update(slot.place(), None),
                ..self
            },
            None => self,
        }
    }

    /// The device without the kernels of the first `n` slots, given up in order.
    pub open spec fn stripped(self, slots: Seq<Slot>, n: nat) -> DeviceModel
        decreases n,
    {
        if n == 0 {
            self
        } else {
            self.stripped(slots, (n - 1) as nat).without(slots[n - 1])
        }
    }

    /// The BF16 product can be built on this device.
    pub open spec fn bf16_capable(self) -> bool {
        self.ctx.fixed.subgroup_size_control && self.ctx.fixed.report.bf16_cooperative_matrix
    }

    /// The first of the slots, from `i` on, whose kernel is missing.
    pub open spec fn first_missing(self, slots: Seq<Slot>, i: int) -> Option<Slot>
        decreases slots.len() - i,
    {
        if i < 0 || i >= slots.len() {
            None
        } else if !self.has(slots[i]) {
            Some(slots[i])
        } else {
            self.first_missing(slots, i + 1)
        }
    }
}

proof fn lemma_without_keeps(d: DeviceModel, slot: Slot)
    requires
        d.wf(),
        slot.valid(),
    ensures
        d.without(slot).wf(),
        d.without(slot).ctx.same_buffers(d.ctx),
        !d.without(slot).has(slot),
{
    let e = d.without(slot);
    super::law_slots_have_places_of_their_own(slot, slot);
    assert forall|s: Slot| #![trigger s.place()] s.valid() implies (e.kernels[s.place()]
        matches Some(j) ==> j.storage_buffers == s.made_with().storage_buffers && j.push_bytes
        == s.made_with().push_bytes) by {}
    assert(own_kernels(e.kernels, e.ctx.fixed.id));
    assert(own_buffers(e.buffers, e.ctx, e.next_buffer));
}

/// What was given up stays given up.
pub proof fn law_stripped_kernels_are_gone(d: DeviceModel, slots: Seq<Slot>, n: nat, i: int)
    requires
        d.wf(),
        0 <= i < n <= slots.len(),
        forall|j: int| 0 <= j < slots.len() ==> (#[trigger] slots[j]).valid(),
    ensures
        d.stripped(slots, n).wf(),
        !d.stripped(slots, n).has(slots[i]),
    decreases n,
{
    lemma_stripped_wf(d, slots, (n - 1) as nat);
    lemma_without_keeps(d.stripped(slots, (n - 1) as nat), slots[n - 1]);
    if i < n - 1 {
        law_stripped_kernels_are_gone(d, slots, (n - 1) as nat, i);
        super::law_slots_have_places_of_their_own(slots[i], slots[i]);
    }
}

proof fn lemma_stripped_wf(d: DeviceModel, slots: Seq<Slot>, n: nat)
    requires
        d.wf(),
        n <= slots.len(),
        forall|j: int| 0 <= j < slots.len() ==> (#[trigger] slots[j]).valid(),
    ensures
        d.stripped(slots, n).wf(),
    decreases n,
{
    if n > 0 {
        lemma_stripped_wf(d, slots, (n - 1) as nat);
        lemma_without_keeps(d.stripped(slots, (n - 1) as nat), slots[n - 1]);
    }
}

impl AckDevice {
    /// Give up one kernel, if it is there.
    fn give_up_one(&mut self, slot: Slot)
        requires
            old(self).wf(),
            slot.valid(),
        ensures
            final(self).wf(),
            final(self)@ == old(self)@.without(slot),
    {
        let ghost before = self@;
        let place: usize = slot.index();
        proof {
            lemma_without_keeps(before, slot);
        }
        let held = self.take_kernel(place);
        match held {
            Some(k) => {
                proof {
                    assert(before.kernels[place as int] == Some(k@));
                }
                self.ctx.destroy_kernel(k);
                proof {
                    assert(self@.kernels =~= before.without(slot).kernels);
                    assert(self@ =~= before.without(slot));
                }
            },
            None => {
                proof {
                    assert(before.kernels[place as int] is None);
                    assert(self@.kernels =~= before.kernels);
                    assert(self@ =~= before);
                }
            },
        }
    }

    /// Give up the kernels of these slots, in order.
    pub fn give_up(&mut self, slots: &Vec<Slot>)
        requires
            old(self).wf(),
            forall|j: int| 0 <= j < slots@.len() ==> (#[trigger] slots@[j]).valid(),
        ensures
            final(self).wf(),
            final(self)@ == old(self)@.stripped(slots@, slots@.len()),
    {
        let mut i: usize = 0;
        while i < slots.len()
            invariant
                i <= slots.len(),
                forall|j: int| 0 <= j < slots@.len() ==> (#[trigger] slots@[j]).valid(),
                self.wf(),
                self@ == old(self)@.stripped(slots@, i as nat),
            decreases slots.len() - i,
        {
            let slot = slots[i];
            self.give_up_one(slot);
            i += 1;
        }
    }

    /// The next kernel to build before the device is open, if one is missing.
    pub fn next_to_build(&self) -> (r: Option<Slot>)
        requires
            self.wf(),
        ensures
            r == self@.first_missing(opening_slots(self@.bf16_capable()), 0),
            r matches Some(s) ==> s.valid() && !self@.has(s),
    {
        let bf16: bool = self.ctx.subgroup_size_control()
            && self.ctx.report().bf16_cooperative_matrix;
        let list = opening_list(bf16);
        proof {
            assert forall|j: int| 0 <= j < list@.len() implies (#[trigger] list@[j]).valid() by {
                let n = product_slots(bf16).len() as int;
                if j >= n + 2 {
                    assert(list@[j] == single_slots()[j - n - 2]);
                }
            }
        }
        let mut i: usize = 0;
        while i < list.len()
            invariant
                i <= list.len(),
                self.wf(),
                list@ == opening_slots(self@.bf16_capable()),
                forall|j: int| 0 <= j < list@.len() ==> (#[trigger] list@[j]).valid(),
                self@.first_missing(list@, 0) == self@.first_missing(list@, i as int),
            decreases list.len() - i,
        {
            let slot = list[i];
            if !self.holds(slot) {
                return Some(slot);
            }
            i += 1;
        }
        None
    }

    /// A buffer that is still allocated, if there is one.
    pub fn any_buffer(&self) -> (r: Option<u32>)
        ensures
            match r {
                Some(s) => self@.buffers.contains_key(s),
                None => self@.buffers == Map::<u32, BufferModel>::empty(),
            },
    {
        for s in it: self.buffers.keys()
            invariant
                it.index() == 0,
                it.seq().unref().to_set() == self.buffers@.dom(),
        {
            proof {
                assert(it.seq().unref()[0] == *s);
                assert(it.seq().unref().to_set().contains(*s));
            }
            return Some(*s);
        }
        proof {
            assert(self.buffers@.dom() =~= Set::<u32>::empty());
            assert(self@.buffers =~= Map::<u32, BufferModel>::empty());
        }
        None
    }
}

/// Open a device whose kernels are all built: it takes the next handle of the
/// process, which is returned.
pub fn ack_open(registry: &mut Registry, device: &mut AckDevice) -> (r: Result<u64, Refusal>)
    requires
        old(registry).wf(),
        old(device).wf(),
        old(device)@.first_missing(opening_slots(old(device)@.bf16_capable()), 0) is None,
        old(device)@.id == 0,
        old(device)@.next_buffer == 1,
    ensures
        final(registry).wf(),
        final(device).wf(),
        match unless(
            old(registry).next() <= u32::MAX,
            ACK_ERR_UNSUPPORTED_OP,
            Reason::NoDeviceHandle,
        ) {
            Some(refusal) => {
                &&& r is Err
                &&& r->Err_0 == refusal
                &&& final(registry).next() == old(registry).next()
                &&& final(device)@ == old(device)@
            },
            None => {
                &&& r is Ok
                &&& r->Ok_0 == old(registry).next()
                &&& final(registry).next() == old(registry).next() + 1
                &&& final(device)@ == (DeviceModel { id: r->Ok_0, ..old(device)@ })
            },
        },
{
    match registry.take() {
        Ok(id) => {
            device.id = id;
            proof {
                assert(device@ =~= (DeviceModel { id, ..old(device)@ }));
            }
            Ok(id)
        },
        Err(refusal) => Err(refusal),
    }
}

proof fn lemma_nothing_missing(d: DeviceModel, slots: Seq<Slot>, from: int, i: int)
    requires
        0 <= from <= i < slots.len(),
        d.first_missing(slots, from) is None,
    ensures
        d.has(slots[i]),
    decreases i - from,
{
    if from < i {
        lemma_nothing_missing(d, slots, from + 1, i);
    }
}

/// An open device has a kernel for every operator but the BF16 product, and that
/// too where the device can run it.
pub proof fn law_an_open_device_runs_every_operator(d: DeviceModel, s: Slot)
    requires
        d.first_missing(opening_slots(d.bf16_capable()), 0) is None,
        single_slots().contains(s) || cast_slots().contains(s) || (d.bf16_capable()
            && product_slots(true).contains(s)),
    ensures
        d.has(s),
{
    let list = opening_slots(d.bf16_capable());
    let n = product_slots(d.bf16_capable()).len() as int;
    if cast_slots().contains(s) {
        let i = choose|i: int| 0 <= i < cast_slots().len() && cast_slots()[i] == s;
        assert(list[n + i] == s);
        lemma_nothing_missing(d, list, 0, n + i);
    } else if single_slots().contains(s) {
        let i = choose|i: int| 0 <= i < single_slots().len() && single_slots()[i] == s;
        assert(list[n + 2 + i] == s);
        lemma_nothing_missing(d, list, 0, n + 2 + i);
    } else {
        let i = choose|i: int| 0 <= i < product_slots(true).len() && product_slots(true)[i] == s;
        assert(list[i] == s);
        lemma_nothing_missing(d, list, 0, i);
    }
}

/// A device opens with its eight products where it is capable of them, the two
/// casts, and the eight kernels that every device has.
pub proof fn law_opening_builds_every_family(i: int)
    ensures
        opening_slots(true).len() == 18,
        opening_slots(false).len() == 10,
        0 <= i < 8 ==> opening_slots(true)[i] == Slot::Coopmat(i as u32),
        0 <= i < 10 ==> opening_slots(true)[8 + i] == opening_slots(false)[i],
        opening_slots(false)[0] == Slot::Cast(0),
        opening_slots(false)[1] == Slot::Cast(1),
        opening_slots(false)[2] == Slot::MatmulF32,
        opening_slots(false)[3] == Slot::MatmulF32V2,
        opening_slots(false)[4] == Slot::Pointwise(0),
        opening_slots(false)[5] == Slot::Reduce(0),
        opening_slots(false)[6] == Slot::ReduceV2(0),
        opening_slots(false)[7] == Slot::Rowwise,
        opening_slots(false)[8] == Slot::Loss,
        opening_slots(false)[9] == Slot::Embedding,
{
}

/// Products are built exactly where the device controls its subgroup size and
/// multiplies bf16 matrices.
pub proof fn law_products_need_both_capabilities(d: DeviceModel)
    ensures
        d.bf16_capable() <==> d.ctx.fixed.subgroup_size_control
            && d.ctx.fixed.report.bf16_cooperative_matrix,
{
}

/// Every place belongs to one slot, whose place it is.
pub proof fn law_each_place_has_its_slot(i: int)
    requires
        0 <= i < 40,
    ensures
        place_slot(i).place() == i,
        place_slot(i).valid(),
{
}

/// A kernel is built to its recipe in the device's context, and refused as the
/// context refuses it or where its binary cannot be read.
pub proof fn law_kernels_are_built_to_their_recipes(d: DeviceModel, slot: Slot, spirv: Seq<u8>)
    ensures
        d.plan_of(slot).storage_buffers == slot.made_with().storage_buffers,
        slot.made_with().push_bytes >= 4 ==> d.plan_of(slot).push_bytes
            == slot.made_with().push_bytes,
        d.plan_of(slot).subgroup == slot.made_with().subgroup,
        d.plan_of(slot).ctx_id == d.ctx.fixed.id,
        d.build_failure(slot, spirv) is None <==> d.ctx.build_refusal(
            slot.made_with().push_bytes,
            slot.made_with().subgroup,
        ) is None && crate::kernel::spirv_words(spirv) is Some,
{
}

/// Taking a kernel away retires it in the context and empties its place alone.
pub proof fn law_removed_kernel_is_retired(d: DeviceModel, slot: Slot, other: int)
    requires
        d.kernels.len() == 40,
        slot.valid(),
        0 <= other < 40,
    ensures
        d.kernels[slot.place()] is None ==> d.without(slot) == d,
        d.without(slot).kernels[slot.place()] is None,
        other != slot.place() ==> d.without(slot).kernels[other] == d.kernels[other],
        d.kernels[slot.place()] matches Some(k) ==> d.without(slot).ctx == d.ctx.without_kernel(k),
        d.without(slot).buffers == d.buffers,
{
}

/// The first of the slots that a device is missing is one of them, it misses it,
/// and it has every one before; it misses none where there is none.
pub proof fn law_first_missing_slot(d: DeviceModel, slots: Seq<Slot>, from: int)
    requires
        0 <= from,
    ensures
        match d.first_missing(slots, from) {
            Some(s) => exists|i: int|
                from <= i < slots.len() && #[trigger] slots[i] == s && !d.has(s) && forall|j: int|
                    from <= j < i ==> d.has(#[trigger] slots[j]),
            None => forall|j: int| from <= j < slots.len() ==> d.has(#[trigger] slots[j]),
        },
    decreases slots.len() - from,
{
    if from < slots.len() {
        if d.has(slots[from]) {
            law_first_missing_slot(d, slots, from + 1);
            if let Some(s) = d.first_missing(slots, from + 1) {
                let i = choose|i: int|
                    from + 1 <= i < slots.len() && #[trigger] slots[i] == s && !d.has(s)
                        && forall|j: int| from + 1 <= j < i ==> d.has(#[trigger] slots[j]);
                assert(slots[i] == s);
            }
        } else {
            assert(slots[from] == slots[from]);
        }
    }
}

} // verus!
