//! Running what an entry asked of a device, one driver call at a time: launches,
//! uploads, downloads, and the life of buffers.

use super::{
    buffer_models, own_buffers, own_kernels, AckDevice, DeviceModel, Launch, LaunchModel, Slot,
};
use crate::batch::{access_refusal, first_mismatch, Access, FlushReason};
use crate::context::flush::{Flush, FlushNext, FlushOutcome};
use crate::context::record::{Dispatch, DispatchModel, DispatchNext, DispatchOutcome};
use crate::context::retire::{Release, ReleaseModel, ReleaseNext, ReleaseOutcome};
use crate::context::transfer::{
    BufferNext, BufferOutcome, BufferRequest, Download, DownloadModel, DownloadNext,
    DownloadOutcome, Upload, UploadModel, UploadNext, UploadOutcome,
};
use crate::context::{bound_to, Buffer, BufferModel, ContextModel, SubmittedModel};
use crate::driver::Reply;
use crate::error::{AckError, Failure};
use crate::ffi::{buffer_handle, code_for, packed, ACK_ERR_POISONED};
use crate::kernel::{Kernel, KernelModel};
use crate::ledger::law_leaked_objects_are_counted;
use vstd::prelude::*;
use vstd::string::*;

verus! {

/// A failure of the runtime as a caller gets it.
#[derive(Debug)]
pub struct Failed {
    pub code: i32,
    pub message: String,
}

#[verifier::ext_equal]
pub ghost struct FailedModel {
    pub code: i32,
    pub text: Seq<char>,
}

impl View for Failed {
    type V = FailedModel;

    open spec fn view(&self) -> FailedModel {
        FailedModel { code: self.code, text: self.message@ }
    }
}

impl Failure {
    /// A failure as a caller gets it, behind what was being done.
    pub open spec fn reported(self, doing: Seq<char>) -> FailedModel {
        FailedModel { code: self.code(), text: doing + self.text() }
    }
}

/// A failure as a caller gets it, behind what was being done.
pub fn report(doing: &str, e: &AckError) -> (r: Failed)
    ensures
        r@ == e@.reported(doing@),
{
    let text = e.message();
    Failed { code: code_for(e), message: String::from_str(doing).concat(text.as_str()) }
}

/// Where a launch stands.
#[derive(Debug)]
pub enum LaunchNext {
    Pending(Dispatch),
    Recorded,
    Refused(Failed),
}

pub ghost enum LaunchOutcome {
    Pending(DispatchModel),
    Recorded,
    Refused(FailedModel),
}

impl View for LaunchNext {
    type V = LaunchOutcome;

    open spec fn view(&self) -> LaunchOutcome {
        match self {
            LaunchNext::Pending(d) => LaunchOutcome::Pending(d@),
            LaunchNext::Recorded => LaunchOutcome::Recorded,
            LaunchNext::Refused(e) => LaunchOutcome::Refused(e@),
        }
    }
}

/// What a dispatch's outcome is to a launch.
pub open spec fn launch_outcome(o: DispatchOutcome) -> LaunchOutcome {
    match o {
        DispatchOutcome::Pending(d) => LaunchOutcome::Pending(d),
        DispatchOutcome::Recorded => LaunchOutcome::Recorded,
        DispatchOutcome::Refused(e) => LaunchOutcome::Refused(e.reported(""@)),
    }
}

fn launch_next(n: DispatchNext) -> (r: LaunchNext)
    ensures
        r@ == launch_outcome(n@),
{
    match n {
        DispatchNext::Pending(d) => LaunchNext::Pending(d),
        DispatchNext::Recorded => LaunchNext::Recorded,
        DispatchNext::Refused(e) => LaunchNext::Refused(report("", &e)),
    }
}

/// What binding a slot's kernel is called where it fails.
pub open spec fn binding_text(slot: Slot) -> Seq<char> {
    if slot is Vq {
        "vq: binding refused: "@
    } else {
        ""@
    }
}

impl DeviceModel {
    /// The buffers that a launch binds.
    pub open spec fn operands(self, l: LaunchModel) -> Seq<BufferModel> {
        Seq::new(l.buffers.len(), |i: int| self.buffers[l.buffers[i]])
    }

    /// The device with another kernel in a slot.
    pub open spec fn with_kernel(self, slot: Slot, k: KernelModel, ctx: ContextModel) -> DeviceModel {
        DeviceModel { ctx, kernels: self.kernels.update(slot.place(), Some(k)), ..self }
    }

    /// The device and a launch once its kernel is bound and its dispatch has
    /// begun.
    pub open spec fn launched(self, l: LaunchModel) -> (DeviceModel, LaunchOutcome) {
        let k = self.kernels[l.slot.place()]->0;
        match self.ctx.bind_refusal(k, self.operands(l)) {
            Some(e) => (self, LaunchOutcome::Refused(e.reported(binding_text(l.slot)))),
            None => {
                let (ctx, next, o) = self.ctx.dispatching(
                    bound_to(k, self.operands(l)),
                    l.push,
                    l.groups,
                    1,
                    l.access,
                );
                (self.with_kernel(l.slot, next, ctx), launch_outcome(o))
            },
        }
    }

    /// The device and a launch after a reply.
    pub open spec fn launch_after(self, slot: Slot, d: DispatchModel, reply: Reply) -> (
        DeviceModel,
        LaunchOutcome,
    ) {
        let (ctx, next, o) = self.ctx.dispatch_after(self.kernels[slot.place()]->0, d, reply);
        (self.with_kernel(slot, next, ctx), launch_outcome(o))
    }

    /// The launch can be made on this device.
    pub open spec fn can_launch(self, l: LaunchModel) -> bool {
        &&& l.slot.valid()
        &&& self.has(l.slot)
        &&& forall|i: int|
            0 <= i < l.buffers.len() ==> self.buffers.contains_key(#[trigger] l.buffers[i])
    }
}

proof fn lemma_buffers_bind(d: DeviceModel, handles: Seq<u64>, operands: Seq<BufferModel>, from: int)
    requires
        d.wf(),
        0 <= from <= handles.len(),
        operands.len() == handles.len(),
        forall|i: int| 0 <= i < handles.len() ==> #[trigger] operands[i] == d.buffer(handles[i]),
        forall|i: int|
            0 <= i < handles.len() ==> d.handle_refusal(#[trigger] handles[i]) is None,
    ensures
        d.ctx.buffers_refusal(operands, from) is None,
    decreases handles.len() - from,
{
    if from < handles.len() {
        assert(operands[from] == d.buffer(handles[from]));
        super::law_resolved_handles_bind(d, handles[from]);
        lemma_buffers_bind(d, handles, operands, from + 1);
    }
}

/// A launch on resolved handles, as many as its kernel binds, can be made on the
/// device; unless the context is poisoned its binding is accepted, and so is
/// what it declares. Only the device's own limits can refuse it then.
pub proof fn law_an_accepted_launch_binds(
    d: DeviceModel,
    slot: Slot,
    handles: Seq<u64>,
    reads: int,
    push: Seq<u8>,
    groups: Seq<u32>,
)
    requires
        d.wf(),
        d.ctx.ledger.usable(),
        slot.valid(),
        d.has(slot),
        handles.len() == slot.made_with().storage_buffers,
        forall|i: int|
            0 <= i < handles.len() ==> d.handle_refusal(#[trigger] handles[i]) is None,
    ensures
        ({
            let l = d.launch(slot, handles, reads, push, groups);
            let k = d.kernels[slot.place()]->0;
            &&& d.can_launch(l)
            &&& d.ctx.bind_refusal(k, d.operands(l)) is None
            &&& access_refusal(l.access, bound_to(k, d.operands(l)).bound) is None
        }),
{
    let l = d.launch(slot, handles, reads, push, groups);
    let k = d.kernels[slot.place()]->0;
    super::law_slots_have_places_of_their_own(slot, slot);
    assert forall|i: int| 0 <= i < handles.len() implies d.buffers.contains_key(
        #[trigger] l.buffers[i],
    ) by {
        assert(d.handle_refusal(handles[i]) is None);
    }
    assert forall|i: int| 0 <= i < handles.len() implies #[trigger] d.operands(l)[i] == d.buffer(
        handles[i],
    ) by {}
    lemma_buffers_bind(d, handles, d.operands(l), 0);
    assert(own_kernels(d.kernels, d.ctx.fixed.id));
    lemma_declared(l.access, bound_to(k, d.operands(l)).bound, 0);
}

proof fn lemma_declared(declared: Seq<Access>, bound: Seq<u64>, from: int)
    requires
        declared.len() == bound.len(),
        0 <= from <= declared.len(),
        forall|i: int| 0 <= i < declared.len() ==> (#[trigger] declared[i]).buffer == bound[i],
    ensures
        first_mismatch(declared, bound, from) is None,
    decreases declared.len() - from,
{
    if from < declared.len() {
        assert(declared[from].buffer == bound[from]);
        lemma_declared(declared, bound, from + 1);
    }
}

/// A kernel put back as it was built keeps the device consistent.
proof fn lemma_kernel_put_back(d: DeviceModel, slot: Slot, k: KernelModel, ctx: ContextModel)
    requires
        d.wf(),
        slot.valid(),
        d.has(slot),
        k.wf(),
        k.same_build(d.kernels[slot.place()]->0),
        ctx.same_buffers(d.ctx),
    ensures
        d.with_kernel(slot, k, ctx).wf(),
{
    let e = d.with_kernel(slot, k, ctx);
    assert forall|s: Slot| #![trigger s.place()] s.valid() implies (e.kernels[s.place()]
        matches Some(j) ==> j.storage_buffers == s.made_with().storage_buffers && j.push_bytes
        == s.made_with().push_bytes) by {
        if s.place() == slot.place() {
            super::law_slots_have_places_of_their_own(s, slot);
        }
    }
    assert(own_kernels(e.kernels, e.ctx.fixed.id));
    assert(own_buffers(e.buffers, e.ctx, e.next_buffer));
}

impl AckDevice {
    /// Take a kernel out of its place.
    pub(super) fn take_kernel(&mut self, place: usize) -> (r: Option<Kernel>)
        requires
            place < old(self).kernels@.len(),
        ensures
            r == old(self).kernels@[place as int],
            final(self).kernels@ == old(self).kernels@.update(place as int, None),
            final(self).id == old(self).id,
            final(self).ctx == old(self).ctx,
            final(self).buffers == old(self).buffers,
            final(self).next_buffer == old(self).next_buffer,
            final(self).closed == old(self).closed,
            final(self).reduce_v1_only == old(self).reduce_v1_only,
    {
        let mut held: Option<Kernel> = None;
        std::mem::swap(&mut held, &mut self.kernels[place]);
        held
    }

    /// The buffers that sequence numbers name.
    fn bound_buffers(&self, seqs: &Vec<u32>) -> (r: Vec<&Buffer>)
        requires
            forall|i: int| 0 <= i < seqs@.len() ==> self.buffers@.contains_key(#[trigger] seqs@[i]),
        ensures
            r@.len() == seqs@.len(),
            forall|i: int| 0 <= i < seqs@.len() ==> #[trigger] r@[i]@ == self.buffers@[seqs@[i]]@,
    {
        let mut out: Vec<&Buffer> = Vec::new();
        let mut i: usize = 0;
        while i < seqs.len()
            invariant
                i <= seqs.len(),
                forall|j: int|
                    0 <= j < seqs@.len() ==> self.buffers@.contains_key(#[trigger] seqs@[j]),
                out@.len() == i,
                forall|j: int| 0 <= j < i ==> #[trigger] out@[j]@ == self.buffers@[seqs@[j]]@,
            decreases seqs.len() - i,
        {
            assert(self.buffers@.contains_key(seqs@[i as int]));
            match self.buffers.get(&seqs[i]) {
                Some(b) => {
                    out.push(b);
                },
                None => {},
            }
            i += 1;
        }
        out
    }

    /// Bind a launch's kernel and begin its dispatch.
    pub fn launch(&mut self, l: &Launch) -> (r: LaunchNext)
        requires
            old(self).wf(),
            old(self)@.can_launch(l@),
            old(self)@.ctx.next_item_seq < u64::MAX,
        ensures
            final(self).wf(),
            (final(self)@, r@) == old(self)@.launched(l@),
            r matches LaunchNext::Pending(d) ==> d@.held_by(final(self)@.ctx),
    {
        let ghost before = self@;
        let place: usize = l.slot.index();
        let held = self.take_kernel(place);
        let mut kernel: Kernel = match held {
            Some(k) => k,
            None => {
                proof {
                    assert(before.has(l.slot));
                }
                return LaunchNext::Recorded;
            },
        };
        proof {
            assert(before.kernels[place as int] == Some(kernel@));
            assert forall|i: int| 0 <= i < l.buffers@.len() implies self.buffers@.contains_key(
                #[trigger] l.buffers@[i],
            ) by {
                assert(before.buffers.contains_key(l@.buffers[i]));
            }
        }
        let bound = self.bound_buffers(&l.buffers);
        let ghost models = Seq::new(bound@.len(), |i: int| bound@[i]@);
        proof {
            assert(models =~= before.operands(l@));
        }
        let refused = self.ctx.bind(&mut kernel, bound.as_slice());
        let next = match refused {
            Err(e) => {
                let doing: &str = match l.slot {
                    Slot::Vq => "vq: binding refused: ",
                    _ => "",
                };
                LaunchNext::Refused(report(doing, &e))
            },
            Ok(()) => launch_next(
                self.ctx.dispatch(
                    &mut kernel,
                    l.push.as_slice(),
                    l.groups,
                    1,
                    l.access.as_slice(),
                ),
            ),
        };
        let ghost k = kernel@;
        self.kernels[place] = Some(kernel);
        proof {
            let after = before.with_kernel(l.slot, k, self.ctx@);
            lemma_kernel_put_back(before, l.slot, k, self.ctx@);
            assert(self@.kernels =~= after.kernels);
            assert(self@.buffers =~= before.buffers);
            assert(self@ =~= after);
            if refused is Err {
                assert(after =~= before);
            }
        }
        next
    }
}

impl AckDevice {
    /// Take the reply to a launch's call.
    pub fn advance_launch(&mut self, slot: Slot, d: Dispatch, reply: Reply) -> (r: LaunchNext)
        requires
            old(self).wf(),
            slot.valid(),
            old(self)@.has(slot),
            d@.held_by(old(self)@.ctx),
            d@.next_call().admits(reply),
            old(self)@.ctx.next_item_seq < u64::MAX,
        ensures
            final(self).wf(),
            (final(self)@, r@) == old(self)@.launch_after(slot, d@, reply),
            r matches LaunchNext::Pending(e) ==> e@.held_by(final(self)@.ctx),
    {
        let ghost before = self@;
        let place: usize = slot.index();
        let held = self.take_kernel(place);
        let mut kernel: Kernel = match held {
            Some(k) => k,
            None => {
                proof {
                    assert(before.has(slot));
                }
                return LaunchNext::Recorded;
            },
        };
        proof {
            assert(before.kernels[place as int] == Some(kernel@));
        }
        let next = launch_next(self.ctx.advance_dispatch(&mut kernel, d, reply));
        let ghost k = kernel@;
        self.kernels[place] = Some(kernel);
        proof {
            let after = before.with_kernel(slot, k, self.ctx@);
            lemma_kernel_put_back(before, slot, k, self.ctx@);
            assert(self@.kernels =~= after.kernels);
            assert(self@.buffers =~= before.buffers);
            assert(self@ =~= after);
        }
        next
    }
}

/// Where an upload stands.
#[derive(Debug)]
pub enum WriteNext<'a> {
    Pending(Upload<'a>),
    Finished,
    Refused(Failed),
}

pub ghost enum WriteOutcome {
    Pending(UploadModel),
    Finished,
    Refused(FailedModel),
}

impl<'a> View for WriteNext<'a> {
    type V = WriteOutcome;

    open spec fn view(&self) -> WriteOutcome {
        match self {
            WriteNext::Pending(u) => WriteOutcome::Pending(u@),
            WriteNext::Finished => WriteOutcome::Finished,
            WriteNext::Refused(e) => WriteOutcome::Refused(e@),
        }
    }
}

/// What an upload's outcome is to its caller, behind what was being done.
pub open spec fn write_outcome(o: UploadOutcome, doing: Seq<char>) -> WriteOutcome {
    match o {
        UploadOutcome::Pending(u) => WriteOutcome::Pending(u),
        UploadOutcome::Finished => WriteOutcome::Finished,
        UploadOutcome::Refused(e) => WriteOutcome::Refused(e.reported(doing)),
    }
}

fn write_next<'a>(n: UploadNext<'a>, doing: &str) -> (r: WriteNext<'a>)
    ensures
        r@ == write_outcome(n@, doing@),
{
    match n {
        UploadNext::Pending(u) => WriteNext::Pending(u),
        UploadNext::Finished => WriteNext::Finished,
        UploadNext::Refused(e) => WriteNext::Refused(report(doing, &e)),
    }
}

/// Where a download stands.
#[derive(Debug)]
pub enum ReadNext {
    Pending(Download),
    Finished,
    Refused(Failed),
}

pub ghost enum ReadOutcome {
    Pending(DownloadModel),
    Finished,
    Refused(FailedModel),
}

impl View for ReadNext {
    type V = ReadOutcome;

    open spec fn view(&self) -> ReadOutcome {
        match self {
            ReadNext::Pending(d) => ReadOutcome::Pending(d@),
            ReadNext::Finished => ReadOutcome::Finished,
            ReadNext::Refused(e) => ReadOutcome::Refused(e@),
        }
    }
}

/// What a download's outcome is to its caller.
pub open spec fn read_outcome(o: DownloadOutcome) -> ReadOutcome {
    match o {
        DownloadOutcome::Pending(d) => ReadOutcome::Pending(d),
        DownloadOutcome::Finished => ReadOutcome::Finished,
        DownloadOutcome::Refused(e) => ReadOutcome::Refused(e.reported(""@)),
    }
}

fn read_next(n: DownloadNext) -> (r: ReadNext)
    ensures
        r@ == read_outcome(n@),
{
    match n {
        DownloadNext::Pending(d) => ReadNext::Pending(d),
        DownloadNext::Finished => ReadNext::Finished,
        DownloadNext::Refused(e) => ReadNext::Refused(report("", &e)),
    }
}

impl DeviceModel {
    /// The device with its context moved on.
    pub open spec fn with_context(self, ctx: ContextModel) -> DeviceModel {
        DeviceModel { ctx, ..self }
    }

    /// The device and an upload once it has begun.
    pub open spec fn written(self, seq: u32, data: Seq<u8>, doing: Seq<char>) -> (
        DeviceModel,
        WriteOutcome,
    ) {
        let (ctx, o) = self.ctx.uploading(self.buffers[seq], data);
        (self.with_context(ctx), write_outcome(o, doing))
    }

    /// The device and an upload after a reply.
    pub open spec fn write_after(self, u: UploadModel, reply: Reply, doing: Seq<char>) -> (
        DeviceModel,
        WriteOutcome,
    ) {
        let (ctx, o) = self.ctx.upload_after(u, reply);
        (self.with_context(ctx), write_outcome(o, doing))
    }

    /// The device and a download once it has begun.
    pub open spec fn read(self, seq: u32) -> (DeviceModel, ReadOutcome) {
        let (ctx, o) = self.ctx.downloading(self.buffers[seq]);
        (self.with_context(ctx), read_outcome(o))
    }

    /// The device and a download after a reply.
    pub open spec fn read_after(self, d: DownloadModel, reply: Reply) -> (
        DeviceModel,
        ReadOutcome,
    ) {
        let (ctx, o) = self.ctx.download_after(d, reply);
        (self.with_context(ctx), read_outcome(o))
    }
}

impl AckDevice {
    /// Begin to write a buffer whole. `doing` is what a failure is reported
    /// behind.
    pub fn write<'a>(&mut self, seq: u32, data: &'a [u8], doing: &str) -> (r: WriteNext<'a>)
        requires
            old(self).wf(),
            old(self)@.buffers.contains_key(seq),
        ensures
            final(self).wf(),
            (final(self)@, r@) == old(self)@.written(seq, data@, doing@),
            r matches WriteNext::Pending(u) ==> u@.held_by(final(self)@.ctx),
    {
        let ghost before = self@;
        match self.buffers.get(&seq) {
            Some(b) => {
                let next = write_next(self.ctx.upload(b, data), doing);
                proof {
                    assert(self@ =~= before.with_context(self.ctx@));
                }
                next
            },
            None => WriteNext::Finished,
        }
    }

    /// Take the reply to an upload's call.
    pub fn advance_write<'a>(&mut self, u: Upload<'a>, reply: Reply, doing: &str) -> (r:
        WriteNext<'a>)
        requires
            old(self).wf(),
            u@.held_by(old(self)@.ctx),
            u@.next_call().admits(reply),
        ensures
            final(self).wf(),
            (final(self)@, r@) == old(self)@.write_after(u@, reply, doing@),
            r matches WriteNext::Pending(v) ==> v@.held_by(final(self)@.ctx),
    {
        let ghost before = self@;
        let next = write_next(self.ctx.advance_upload(u, reply), doing);
        proof {
            assert(self@ =~= before.with_context(self.ctx@));
        }
        next
    }

    /// Begin to read a buffer whole.
    pub fn read(&mut self, seq: u32) -> (r: ReadNext)
        requires
            old(self).wf(),
            old(self)@.buffers.contains_key(seq),
        ensures
            final(self).wf(),
            (final(self)@, r@) == old(self)@.read(seq),
            r matches ReadNext::Pending(d) ==> d@.held_by(final(self)@.ctx),
    {
        let ghost before = self@;
        match self.buffers.get(&seq) {
            Some(b) => {
                let next = read_next(self.ctx.download(b));
                proof {
                    assert(self@ =~= before.with_context(self.ctx@));
                }
                next
            },
            None => ReadNext::Finished,
        }
    }

    /// Take the reply to a download's call.
    pub fn advance_read(&mut self, d: Download, reply: Reply) -> (r: ReadNext)
        requires
            old(self).wf(),
            d@.held_by(old(self)@.ctx),
            d@.next_call().admits(reply),
        ensures
            final(self).wf(),
            (final(self)@, r@) == old(self)@.read_after(d@, reply),
            r matches ReadNext::Pending(e) ==> e@.held_by(final(self)@.ctx),
    {
        let ghost before = self@;
        let next = read_next(self.ctx.advance_download(d, reply));
        proof {
            assert(self@ =~= before.with_context(self.ctx@));
        }
        next
    }
}

/// Where an allocation stands; a buffer that was made is its handle.
#[derive(Debug)]
pub enum AllocNext {
    Pending(BufferRequest),
    Made(u64),
    Refused(Failed),
}

pub ghost enum AllocOutcome {
    Pending(BufferRequest),
    Made(u64),
    Refused(FailedModel),
}

impl View for AllocNext {
    type V = AllocOutcome;

    open spec fn view(&self) -> AllocOutcome {
        match self {
            AllocNext::Pending(b) => AllocOutcome::Pending(*b),
            AllocNext::Made(h) => AllocOutcome::Made(*h),
            AllocNext::Refused(e) => AllocOutcome::Refused(e@),
        }
    }
}

impl DeviceModel {
    /// The device and an allocation after the context has moved: a buffer that
    /// is ready takes the next sequence number.
    pub open spec fn allocated(self, ctx: ContextModel, o: BufferOutcome) -> (
        DeviceModel,
        AllocOutcome,
    ) {
        match o {
            BufferOutcome::Pending(b) => (self.with_context(ctx), AllocOutcome::Pending(b)),
            BufferOutcome::Refused(e) => (
                self.with_context(ctx),
                AllocOutcome::Refused(e.reported(""@)),
            ),
            BufferOutcome::Ready(b) => (
                DeviceModel {
                    ctx,
                    buffers: self.buffers.insert(self.next_buffer, b),
                    next_buffer: (self.next_buffer + 1) as u32,
                    ..self
                },
                AllocOutcome::Made(packed(self.id, self.next_buffer)),
            ),
        }
    }
}

/// A new buffer of the context keeps the device consistent.
proof fn lemma_new_buffer(d: DeviceModel, ctx: ContextModel, b: BufferModel)
    requires
        d.wf(),
        d.ctx.wf(),
        d.next_buffer < u32::MAX,
        ctx.has_new_buffer(d.ctx, b),
        b.wf(),
    ensures
        d.allocated(ctx, BufferOutcome::Ready(b)).0.wf(),
{
    let e = d.allocated(ctx, BufferOutcome::Ready(b)).0;
    assert forall|s: u32| #[trigger] e.buffers.contains_key(s) implies {
        &&& 0 < s < e.next_buffer
        &&& e.buffers[s].wf()
        &&& e.buffers[s].ctx_id == ctx.fixed.id
        &&& ctx.live.contains(e.buffers[s].id)
    } by {
        if s != d.next_buffer {
            assert(d.buffers.contains_key(s));
        }
    }
    assert forall|s: u32, t: u32|
        #![trigger e.buffers.contains_key(s), e.buffers.contains_key(t)]
        e.buffers.contains_key(s) && e.buffers.contains_key(t) && e.buffers[s].id
            == e.buffers[t].id implies s == t by {
        assert(s != d.next_buffer ==> d.buffers.contains_key(s));
        assert(t != d.next_buffer ==> d.buffers.contains_key(t));
        if s != d.next_buffer {
            assert(d.ctx.live.contains(d.buffers[s].id));
            assert(d.buffers[s].id < d.ctx.next_buffer);
        }
        if t != d.next_buffer {
            assert(d.ctx.live.contains(d.buffers[t].id));
            assert(d.buffers[t].id < d.ctx.next_buffer);
        }
    }
    assert(own_kernels(e.kernels, ctx.fixed.id));
}

impl AckDevice {
    /// Take in what a buffer request came to.
    fn take_in(&mut self, n: BufferNext, Ghost(before): Ghost<DeviceModel>) -> (r: AllocNext)
        requires
            before.wf(),
            before.ctx.wf(),
            before.next_buffer < u32::MAX,
            old(self).ctx.wf(),
            old(self)@ == before.with_context(old(self).ctx@),
            match n {
                BufferNext::Ready(b) => old(self).ctx@.has_new_buffer(before.ctx, b@) && b@.wf(),
                _ => old(self).ctx@.same_buffers(before.ctx),
            },
        ensures
            final(self).wf(),
            (final(self)@, r@) == before.allocated(old(self).ctx@, n@),
    {
        match n {
            BufferNext::Pending(b) => AllocNext::Pending(b),
            BufferNext::Refused(e) => AllocNext::Refused(report("", &e)),
            BufferNext::Ready(b) => {
                let seq: u32 = self.next_buffer;
                let ghost model = b@;
                let ghost buffers = self.buffers@;
                self.buffers.insert(seq, b);
                self.next_buffer = seq + 1;
                proof {
                    lemma_new_buffer(before, self.ctx@, model);
                    assert(buffer_models(self.buffers@) =~= buffer_models(buffers).insert(
                        seq,
                        model,
                    ));
                    assert(self@ =~= before.allocated(self.ctx@, BufferOutcome::Ready(model)).0);
                }
                AllocNext::Made(buffer_handle(self.id, seq))
            },
        }
    }

    /// Begin to allocate a buffer.
    pub fn allocate(&mut self, bytes: u64) -> (r: AllocNext)
        requires
            old(self).wf(),
            old(self)@.next_buffer < u32::MAX,
            old(self)@.ctx.next_buffer < u64::MAX,
        ensures
            final(self).wf(),
            (final(self)@, r@) == old(self)@.allocated(
                old(self)@.ctx.requesting(bytes).0,
                old(self)@.ctx.requesting(bytes).1,
            ),
            r matches AllocNext::Pending(b) ==> b.wf(),
    {
        let ghost before = self@;
        proof {
            self.ctx.lemma_wf();
        }
        let next = self.ctx.buffer(bytes);
        proof {
            assert(self@ =~= before.with_context(self.ctx@));
        }
        self.take_in(next, Ghost(before))
    }

    /// Take the reply to an allocation's call.
    pub fn advance_allocate(&mut self, b: BufferRequest, reply: Reply) -> (r: AllocNext)
        requires
            old(self).wf(),
            old(self)@.next_buffer < u32::MAX,
            old(self)@.ctx.next_buffer < u64::MAX,
            b.wf(),
            b.raw.next_call().admits(reply),
        ensures
            final(self).wf(),
            (final(self)@, r@) == old(self)@.allocated(
                old(self)@.ctx.request_after(b, reply).0,
                old(self)@.ctx.request_after(b, reply).1,
            ),
            r matches AllocNext::Pending(c) ==> c.wf(),
    {
        let ghost before = self@;
        proof {
            self.ctx.lemma_wf();
        }
        let next = self.ctx.advance_buffer(b, reply);
        proof {
            assert(self@ =~= before.with_context(self.ctx@));
        }
        self.take_in(next, Ghost(before))
    }
}

/// A handle that an allocation returns names the buffer that was made, and no
/// buffer that the device had before.
pub proof fn law_new_handles_are_new(d: DeviceModel, ctx: ContextModel, b: BufferModel)
    requires
        d.wf(),
        d.next_buffer < u32::MAX,
    ensures
        ({
            let (after, o) = d.allocated(ctx, BufferOutcome::Ready(b));
            let handle = o->Made_0;
            &&& handle != 0
            &&& d.handle_refusal(handle) is Some
            &&& after.handle_refusal(handle) is None
            &&& after.buffer(handle) == b
        }),
{
    crate::ffi::law_handle_splits_back(d.id, d.next_buffer);
    assert(!d.buffers.contains_key(d.next_buffer));
}

/// Where a free stands.
#[derive(Debug)]
pub enum FreeNext {
    Pending(Release),
    Freed,
    Refused(Failed),
}

pub ghost enum FreeOutcome {
    Pending(ReleaseModel),
    Freed,
    Refused(FailedModel),
}

impl View for FreeNext {
    type V = FreeOutcome;

    open spec fn view(&self) -> FreeOutcome {
        match self {
            FreeNext::Pending(p) => FreeOutcome::Pending(p@),
            FreeNext::Freed => FreeOutcome::Freed,
            FreeNext::Refused(e) => FreeOutcome::Refused(e@),
        }
    }
}

/// Whose failure a free reports: a poisoned context leaked this buffer; anything
/// else belongs to the batch whose flush the free brought on.
pub open spec fn free_text(e: Failure) -> Seq<char> {
    if e is Poisoned {
        "buffer leaked, not freed: "@
    } else {
        "the buffer was retired and the flush its retirement triggered failed: "@
    }
}

/// What a release's outcome is to a free.
pub open spec fn free_outcome(o: ReleaseOutcome) -> FreeOutcome {
    match o {
        ReleaseOutcome::Pending(p) => FreeOutcome::Pending(p),
        ReleaseOutcome::Finished => FreeOutcome::Freed,
        ReleaseOutcome::Refused(e) => FreeOutcome::Refused(e.reported(free_text(e))),
    }
}

fn free_next(n: ReleaseNext) -> (r: FreeNext)
    ensures
        r@ == free_outcome(n@),
{
    match n {
        ReleaseNext::Pending(p) => FreeNext::Pending(p),
        ReleaseNext::Finished => FreeNext::Freed,
        ReleaseNext::Refused(e) => {
            let doing: &str = match &e {
                AckError::Poisoned(_) => "buffer leaked, not freed: ",
                _ => "the buffer was retired and the flush its retirement triggered failed: ",
            };
            FreeNext::Refused(report(doing, &e))
        },
    }
}

impl DeviceModel {
    /// The device and a free once it has begun: the handle is consumed whatever
    /// comes of it.
    pub open spec fn freeing(self, seq: u32) -> (DeviceModel, FreeOutcome) {
        let b = self.buffers[seq];
        let (ctx, o) = self.ctx.freed(b);
        (
            DeviceModel { ctx, buffers: self.buffers.remove(seq), ..self },
            free_outcome(ctx.release_report(o, self.ctx.ledger.leaked)),
        )
    }

    /// The device and a free after a reply.
    pub open spec fn free_after(self, p: ReleaseModel, reply: Reply) -> (DeviceModel, FreeOutcome) {
        let (ctx, o) = self.ctx.flush_after(p.flush, reply);
        (self.with_context(ctx), free_outcome(ctx.release_report(o, p.before)))
    }
}

/// A device without one of its buffers stays consistent.
pub(super) proof fn lemma_buffer_gone(d: DeviceModel, seq: u32, ctx: ContextModel)
    requires
        d.wf(),
        d.buffers.contains_key(seq),
        ctx.fixed == d.ctx.fixed,
        ctx.live == d.ctx.live.remove(d.buffers[seq].id),
    ensures
        (DeviceModel { ctx, buffers: d.buffers.remove(seq), ..d }).wf(),
{
    let e = DeviceModel { ctx, buffers: d.buffers.remove(seq), ..d };
    assert forall|s: u32| #[trigger] e.buffers.contains_key(s) implies {
        &&& 0 < s < e.next_buffer
        &&& e.buffers[s].wf()
        &&& e.buffers[s].ctx_id == ctx.fixed.id
        &&& ctx.live.contains(e.buffers[s].id)
    } by {
        assert(d.buffers.contains_key(s));
    }
    assert forall|s: u32, t: u32|
        #![trigger e.buffers.contains_key(s), e.buffers.contains_key(t)]
        e.buffers.contains_key(s) && e.buffers.contains_key(t) && e.buffers[s].id
            == e.buffers[t].id implies s == t by {
        assert(d.buffers.contains_key(s) && d.buffers.contains_key(t));
    }
    assert(own_kernels(e.kernels, ctx.fixed.id));
}

impl AckDevice {
    /// Begin to free a buffer. Its handle is refused from now on.
    pub fn free(&mut self, seq: u32) -> (r: FreeNext)
        requires
            old(self).wf(),
            old(self)@.buffers.contains_key(seq),
        ensures
            final(self).wf(),
            (final(self)@, r@) == old(self)@.freeing(seq),
            r matches FreeNext::Pending(p) ==> p@.flush.held_by(final(self)@.ctx),
    {
        let ghost before = self@;
        let ghost buffers = self.buffers@;
        match self.buffers.remove(&seq) {
            Some(b) => {
                proof {
                    assert(before.buffers[seq] == b@);
                }
                let next = free_next(self.ctx.release_buffer(b));
                proof {
                    lemma_buffer_gone(before, seq, self.ctx@);
                    assert(buffer_models(self.buffers@) =~= buffer_models(buffers).remove(seq));
                    assert(self@ =~= (DeviceModel {
                        ctx: self.ctx@,
                        buffers: before.buffers.remove(seq),
                        ..before
                    }));
                }
                next
            },
            None => {
                proof {
                    assert(before.buffers.contains_key(seq));
                }
                FreeNext::Freed
            },
        }
    }

    /// Take the reply to a free's call.
    pub fn advance_free(&mut self, p: Release, reply: Reply) -> (r: FreeNext)
        requires
            old(self).wf(),
            p@.flush.held_by(old(self)@.ctx),
            p@.flush.next_call().admits(reply),
        ensures
            final(self).wf(),
            (final(self)@, r@) == old(self)@.free_after(p@, reply),
            r matches FreeNext::Pending(q) ==> q@.flush.held_by(final(self)@.ctx),
    {
        let ghost before = self@;
        let next = free_next(self.ctx.advance_release(p, reply));
        proof {
            assert(self@ =~= before.with_context(self.ctx@));
        }
        next
    }
}

/// A freed handle is refused at once, whatever becomes of the objects.
pub proof fn law_freed_handles_are_refused(d: DeviceModel, handle: u64)
    requires
        d.wf(),
        d.handle_refusal(handle) is None,
    ensures
        d.freeing(super::seq_of(handle)).0.handle_refusal(handle) is Some,
{
}

/// Where a close stands; a device that is closed may leave a message.
#[derive(Debug)]
pub enum CloseNext {
    Pending(Flush),
    Closed(Option<String>),
}

impl DeviceModel {
    /// The device once it is closed.
    pub open spec fn shut(self, ctx: ContextModel) -> DeviceModel {
        DeviceModel { ctx, closed: true, ..self }
    }

    /// The step of a close agrees with the flush it waits for: a flush that
    /// failed is reported, and the device is closed all the same.
    pub open spec fn closes(
        self,
        after: DeviceModel,
        next: CloseNext,
        ctx: ContextModel,
        o: FlushOutcome,
    ) -> bool {
        match o {
            FlushOutcome::Pending(f) => next is Pending && next->Pending_0@ == f && after
                == self.with_context(ctx),
            FlushOutcome::Finished => next == CloseNext::Closed(None) && after == self.shut(ctx),
            FlushOutcome::Refused(e) => {
                &&& next is Closed
                &&& next->Closed_0 is Some
                &&& next->Closed_0->0@ == "close flushed the deferred batch and it failed: "@
                    + e.text()
                &&& after == self.shut(ctx)
            },
        }
    }
}

impl AckDevice {
    /// Take in what the last flush came to.
    fn shut_after(&mut self, n: FlushNext, Ghost(before): Ghost<DeviceModel>) -> (r: CloseNext)
        requires
            before.wf(),
            old(self).ctx.wf(),
            old(self)@ == before.with_context(old(self).ctx@),
            old(self).ctx@.same_buffers(before.ctx),
        ensures
            final(self).wf(),
            before.closes(final(self)@, r, old(self).ctx@, n@),
            n matches FlushNext::Pending(f) ==> r == CloseNext::Pending(f),
    {
        let next = match n {
            FlushNext::Pending(f) => CloseNext::Pending(f),
            FlushNext::Finished => {
                self.closed = true;
                CloseNext::Closed(None)
            },
            FlushNext::Refused(e) => {
                self.closed = true;
                let failed = report("close flushed the deferred batch and it failed: ", &e);
                CloseNext::Closed(Some(failed.message))
            },
        };
        next
    }

    /// Begin to close a device that owns no buffers: recorded work is flushed,
    /// not dropped. Nothing recorded means nothing to flush, and no message.
    pub fn close(&mut self) -> (r: CloseNext)
        requires
            old(self).wf(),
        ensures
            final(self).wf(),
            if old(self)@.ctx.recorder matches Some(rec) && rec.plan.items > 0 {
                old(self)@.closes(
                    final(self)@,
                    r,
                    old(self)@.ctx.flushing(FlushReason::Close).0,
                    old(self)@.ctx.flushing(FlushReason::Close).1,
                )
            } else {
                r == CloseNext::Closed(None) && final(self)@ == old(self)@.shut(old(self)@.ctx)
            },
            r matches CloseNext::Pending(f) ==> f@.held_by(final(self)@.ctx),
    {
        let ghost before = self@;
        if self.ctx.recorded_items() > 0 {
            let next = self.ctx.flush(FlushReason::Close);
            proof {
                assert(self@ =~= before.with_context(self.ctx@));
            }
            self.shut_after(next, Ghost(before))
        } else {
            self.closed = true;
            CloseNext::Closed(None)
        }
    }

    /// Take the reply to a close's call.
    pub fn advance_close(&mut self, f: Flush, reply: Reply) -> (r: CloseNext)
        requires
            old(self).wf(),
            f@.held_by(old(self)@.ctx),
            f@.next_call().admits(reply),
        ensures
            final(self).wf(),
            old(self)@.closes(
                final(self)@,
                r,
                old(self)@.ctx.flush_after(f@, reply).0,
                old(self)@.ctx.flush_after(f@, reply).1,
            ),
            r matches CloseNext::Pending(g) ==> g@.held_by(final(self)@.ctx),
    {
        let ghost before = self@;
        let next = self.ctx.advance_flush(f, reply);
        proof {
            assert(self@ =~= before.with_context(self.ctx@));
        }
        self.shut_after(next, Ghost(before))
    }
}

/// A device whose state is unknown refuses every launch, transfer and allocation
/// as poisoned and stays as it was. A free on it consumes the handle. Where a
/// batch is in flight the pair is retired into that batch and the free succeeds;
/// else the buffer's two objects are left allocated and counted, and the free is
/// refused as poisoned too.
pub proof fn law_a_poisoned_device_refuses_work(
    d: DeviceModel,
    l: LaunchModel,
    seq: u32,
    data: Seq<u8>,
    doing: Seq<char>,
    bytes: u64,
)
    requires
        d.wf(),
        d.ctx.wf(),
        d.ctx.ledger.unknown(),
        d.can_launch(l),
        d.buffers.contains_key(seq),
    ensures
        ({
            let (after, o) = d.launched(l);
            after == d && o is Refused && o->Refused_0.code == ACK_ERR_POISONED
        }),
        ({
            let (after, o) = d.written(seq, data, doing);
            after == d && o is Refused && o->Refused_0.code == ACK_ERR_POISONED
        }),
        ({
            let (after, o) = d.read(seq);
            after == d && o is Refused && o->Refused_0.code == ACK_ERR_POISONED
        }),
        ({
            let (ctx, b) = d.ctx.requesting(bytes);
            let (after, o) = d.allocated(ctx, b);
            after == d && o is Refused && o->Refused_0.code == ACK_ERR_POISONED
        }),
        ({
            let (after, o) = d.freeing(seq);
            let deferred = !(d.ctx.tuning.pool_mode is Immediate);
            &&& !after.buffers.contains_key(seq)
            &&& after.ctx.pool == d.ctx.pool
            &&& if deferred && d.ctx.in_flight is Some {
                let s = d.ctx.in_flight->0;
                &&& after.ctx.in_flight == Some(
                    SubmittedModel { retired: s.retired.push(d.buffers[seq].pair()), ..s },
                )
                &&& after.ctx.ledger == d.ctx.ledger
                &&& o is Freed
            } else {
                &&& after.ctx.in_flight == d.ctx.in_flight
                &&& after.ctx.ledger == d.ctx.ledger.leaked(2)
                &&& o is Refused && o->Refused_0.code == ACK_ERR_POISONED
            }
        }),
{
    law_leaked_objects_are_counted(d.ctx.ledger, 2);
    assert(d.ctx.recorder is None);
}

/// A closed device refuses every call.
pub proof fn law_a_closed_device_refuses_everything(d: DeviceModel, ctx: ContextModel, dev: u64)
    ensures
        super::device_refusal(dev, Some(d.shut(ctx))) is Some,
{
}

/// A refusal answers with the failure's code, and with what was being done
/// before the failure's own text.
pub proof fn law_refusals_say_what_was_done(e: Failure, doing: Seq<char>)
    ensures
        e.reported(doing).code == e.code(),
        e.reported(doing).text == doing + e.text(),
        e.reported(""@).text == e.text(),
        binding_text(Slot::Vq) == "vq: binding refused: "@,
        binding_text(Slot::Loss) == ""@,
        free_text(e) == (if e is Poisoned {
            "buffer leaked, not freed: "@
        } else {
            "the buffer was retired and the flush its retirement triggered failed: "@
        }),
{
    reveal_strlit("");
    assert(""@ + e.text() =~= e.text());
}

/// A launch binds its kernel to the buffers it names, in order, and dispatches it
/// once, with the constants, the grid and the accesses it holds; a refused
/// binding leaves the device alone.
pub proof fn law_launch_dispatches_what_it_holds(d: DeviceModel, l: LaunchModel, i: int)
    requires
        d.can_launch(l),
        0 <= i < l.buffers.len(),
    ensures
        ({
            let k = d.kernels[l.slot.place()]->0;
            let bound = bound_to(k, d.operands(l));
            let (after, out) = d.launched(l);
            let (ctx, k2, o) = d.ctx.dispatching(bound, l.push, l.groups, 1, l.access);
            &&& bound.bound[i] == d.buffers[l.buffers[i]].id
            &&& bound.pending[i].buffer == d.buffers[l.buffers[i]].buffer
            &&& bound.pending[i].bytes == d.buffers[l.buffers[i]].bytes
            &&& bound.bound.len() == l.buffers.len()
            &&& d.ctx.bind_refusal(k, d.operands(l)) is Some ==> {
                &&& after == d
                &&& out is Refused
                &&& out->Refused_0.code == d.ctx.bind_refusal(k, d.operands(l))->0.code()
            }
            &&& d.ctx.bind_refusal(k, d.operands(l)) is None ==> {
                &&& after.ctx == ctx
                &&& after.kernels == d.kernels.update(l.slot.place(), Some(k2))
                &&& after.buffers == d.buffers && after.id == d.id && after.closed == d.closed
                &&& o is Recorded ==> out is Recorded
                &&& o is Pending ==> out is Pending && out->Pending_0 == o->Pending_0
                &&& o is Refused ==> out is Refused && out->Refused_0.code == o->Refused_0.code()
            }
        }),
{
}

/// An allocation enters its buffer under the next number, and answers with the
/// handle of the device and that number; a refusal changes nothing but the
/// context.
pub proof fn law_allocation_takes_the_next_number(
    d: DeviceModel,
    ctx: ContextModel,
    b: BufferModel,
    e: Failure,
)
    requires
        d.next_buffer < u32::MAX,
    ensures
        ({
            let (after, out) = d.allocated(ctx, BufferOutcome::Ready(b));
            let (refused, why) = d.allocated(ctx, BufferOutcome::Refused(e));
            &&& out == AllocOutcome::Made(packed(d.id, d.next_buffer))
            &&& after.buffers == d.buffers.insert(d.next_buffer, b)
            &&& after.next_buffer == d.next_buffer + 1
            &&& after.ctx == ctx && after.kernels == d.kernels && after.id == d.id
            &&& refused == (DeviceModel { ctx, ..d })
            &&& why is Refused && why->Refused_0.code == e.code()
        }),
{
}

/// A write and a read go to the buffer that the number names, and touch nothing
/// of the device but its context.
pub proof fn law_transfers_go_to_the_named_buffer(
    d: DeviceModel,
    seq: u32,
    data: Seq<u8>,
    doing: Seq<char>,
)
    ensures
        d.written(seq, data, doing).0 == (DeviceModel {
            ctx: d.ctx.uploading(d.buffers[seq], data).0,
            ..d
        }),
        d.read(seq).0 == (DeviceModel { ctx: d.ctx.downloading(d.buffers[seq]).0, ..d }),
        d.ctx.uploading(d.buffers[seq], data).1 is Finished ==> d.written(
            seq,
            data,
            doing,
        ).1 is Finished,
        d.ctx.uploading(d.buffers[seq], data).1 matches UploadOutcome::Pending(u) ==> d.written(
            seq,
            data,
            doing,
        ).1 == WriteOutcome::Pending(u),
        d.ctx.uploading(d.buffers[seq], data).1 matches UploadOutcome::Refused(e) ==> d.written(
            seq,
            data,
            doing,
        ).1 == WriteOutcome::Refused(FailedModel { code: e.code(), text: doing + e.text() }),
        d.ctx.downloading(d.buffers[seq]).1 matches DownloadOutcome::Pending(p) ==> d.read(seq).1
            == ReadOutcome::Pending(p),
        d.ctx.downloading(d.buffers[seq]).1 matches DownloadOutcome::Refused(e) ==> d.read(
            seq,
        ).1 is Refused && d.read(seq).1->Refused_0.code == e.code(),
{
}

/// A freed buffer's number is gone from the device, whatever its release ends
/// with; every other number stays.
pub proof fn law_freed_number_is_gone(d: DeviceModel, seq: u32, other: u32)
    ensures
        !d.freeing(seq).0.buffers.contains_key(seq),
        other != seq && d.buffers.contains_key(other) ==> d.freeing(seq).0.buffers.contains_key(
            other,
        ) && d.freeing(seq).0.buffers[other] == d.buffers[other],
        d.freeing(seq).0.ctx == d.ctx.freed(d.buffers[seq]).0,
        d.freeing(seq).0.next_buffer == d.next_buffer,
        free_outcome(ReleaseOutcome::Finished) is Freed,
        forall|e: Failure| #[trigger]
            free_outcome(ReleaseOutcome::Refused(e)) == FreeOutcome::Refused(
                FailedModel { code: e.code(), text: free_text(e) + e.text() },
            ),
{
}

/// A closed device keeps what it holds, and a flush that failed at its close is
/// told of.
pub proof fn law_close_closes_in_any_case(
    d: DeviceModel,
    after: DeviceModel,
    next: CloseNext,
    ctx: ContextModel,
    o: FlushOutcome,
)
    requires
        d.closes(after, next, ctx, o),
    ensures
        after.ctx == ctx && after.buffers == d.buffers && after.kernels == d.kernels,
        !(o is Pending) ==> after.closed && next is Closed,
        o is Pending ==> after.closed == d.closed && next is Pending,
        o is Finished ==> next->Closed_0 is None,
        o matches FlushOutcome::Refused(e) ==> next->Closed_0 is Some && next->Closed_0->0@
            == "close flushed the deferred batch and it failed: "@ + e.text(),
{
}

/// A launch, a write, a read and a release that wait for the driver go on in the
/// context alone, and answer as it does.
pub proof fn law_waiting_work_goes_on_in_the_context(
    d: DeviceModel,
    slot: Slot,
    p: DispatchModel,
    u: UploadModel,
    q: DownloadModel,
    r: ReleaseModel,
    doing: Seq<char>,
    reply: Reply,
)
    ensures
        ({
            let (ctx, k, o) = d.ctx.dispatch_after(d.kernels[slot.place()]->0, p, reply);
            let (after, out) = d.launch_after(slot, p, reply);
            &&& after.ctx == ctx && after.kernels == d.kernels.update(slot.place(), Some(k))
            &&& after.buffers == d.buffers
            &&& o is Recorded ==> out is Recorded
            &&& o matches DispatchOutcome::Pending(n) ==> out == LaunchOutcome::Pending(n)
            &&& o matches DispatchOutcome::Refused(e) ==> out is Refused && out->Refused_0.code
                == e.code()
        }),
        d.write_after(u, reply, doing).0 == (DeviceModel {
            ctx: d.ctx.upload_after(u, reply).0,
            ..d
        }),
        d.ctx.upload_after(u, reply).1 is Finished ==> d.write_after(u, reply, doing).1 is Finished,
        d.ctx.upload_after(u, reply).1 matches UploadOutcome::Refused(e) ==> d.write_after(
            u,
            reply,
            doing,
        ).1 == WriteOutcome::Refused(FailedModel { code: e.code(), text: doing + e.text() }),
        d.read_after(q, reply).0 == (DeviceModel { ctx: d.ctx.download_after(q, reply).0, ..d }),
        d.ctx.download_after(q, reply).1 is Finished ==> d.read_after(q, reply).1 is Finished,
        d.ctx.download_after(q, reply).1 matches DownloadOutcome::Refused(e) ==> d.read_after(
            q,
            reply,
        ).1 is Refused && d.read_after(q, reply).1->Refused_0.code == e.code(),
        d.free_after(r, reply).0 == (DeviceModel {
            ctx: d.ctx.flush_after(r.flush, reply).0,
            ..d
        }),
        d.ctx.flush_after(r.flush, reply).1 is Finished && d.ctx.flush_after(
            r.flush,
            reply,
        ).0.ledger.leaked == r.before ==> d.free_after(r, reply).1 is Freed,
{
}

} // verus!
