//! Buffers, and the transfers into and out of them.

use super::flush::{
    law_a_completing_flush_leaves_nothing_behind, law_a_completing_reason_promises_quiet, Flush,
    FlushModel, FlushNext, FlushOutcome,
};
use super::record::{OpenBatch, OpenNext, OpenOutcome};
use super::{
    all_below, whole_words, Buffer, BufferModel, Context, ContextModel, RecorderModel, Staging,
};
use crate::batch::FlushReason;
use crate::driver::{Call, Reply, Usage};
use crate::error::{AckError, Failure};
use crate::ledger::{
    law_destroyed_objects_are_counted, law_leaked_objects_are_counted, pair_orders, Order,
};
use crate::one_shot::{OneShot, ShotNext, ShotOutcome, ShotStage, Work};
use crate::pool::{all_pair_orders, Pair, PoolModel};
use crate::raw_buffer::{RawBuffer, RawNext, RawOutcome, RawStage, DEVICE_LOCAL, HOST_COHERENT};
use crate::text::{append_decimal, decimal_text};
use vstd::prelude::*;
use vstd::string::*;

verus! {

/// A buffer being created.
#[derive(Clone, Copy, Debug, PartialEq, Eq, Structural)]
pub struct BufferRequest {
    pub raw: RawBuffer,
    pub bytes: u64,
    /// The pool was already given back once for this request.
    pub retried: bool,
}

/// Where a buffer request stands.
#[derive(Debug)]
pub enum BufferNext {
    Pending(BufferRequest),
    Ready(Buffer),
    Refused(AckError),
}

pub ghost enum BufferOutcome {
    Pending(BufferRequest),
    Ready(BufferModel),
    Refused(Failure),
}

impl View for BufferNext {
    type V = BufferOutcome;

    open spec fn view(&self) -> BufferOutcome {
        match self {
            BufferNext::Pending(b) => BufferOutcome::Pending(*b),
            BufferNext::Ready(b) => BufferOutcome::Ready(b@),
            BufferNext::Refused(e) => BufferOutcome::Refused(e@),
        }
    }
}

impl BufferRequest {
    pub open spec fn wf(self) -> bool {
        self.bytes > 0 && whole_words(self.bytes as int) <= u64::MAX
    }

    /// The call to make next.
    pub fn call(&self) -> (r: Call)
        ensures
            r == self.raw.next_call(),
    {
        self.raw.call()
    }
}

/// The creation of a device-local buffer.
pub open spec fn storage_buffer(bytes: u64) -> RawBuffer {
    RawBuffer {
        bytes: whole_words(bytes as int) as u64,
        usage: Usage::Storage,
        flags: DEVICE_LOCAL,
        stage: RawStage::Create,
    }
}

/// What an upload moves: into which buffer, and how many bytes.
#[derive(Clone, Copy, Debug, PartialEq, Eq, Structural)]
pub struct Job {
    pub buffer: u64,
    pub id: u64,
    pub bytes: u64,
}

/// The creation of the staging buffer of an upload.
pub open spec fn upload_staging(bytes: u64) -> RawBuffer {
    RawBuffer { bytes, usage: Usage::Upload, flags: 6, stage: RawStage::Create }
}

/// The creation of the staging buffer of a readback, by preference.
pub open spec fn readback_staging(bytes: u64, preference: u32) -> RawBuffer {
    RawBuffer {
        bytes,
        usage: Usage::Readback,
        flags: if preference == 0 {
            14
        } else if preference == 1 {
            10
        } else {
            6
        },
        stage: RawStage::Create,
    }
}

/// An upload in progress.
#[derive(Debug)]
pub enum Upload<'a> {
    /// The recorded batch goes first.
    Flushing(Flush, Job, &'a [u8]),
    /// The staging pair is created; the copy is recorded, or submitted alone.
    Staging(RawBuffer, Job, bool, &'a [u8]),
    /// The bytes are written into the staging pair.
    Writing(Staging, Job, bool, &'a [u8]),
    Shooting(OneShot, Staging),
    Opening(OpenBatch, Staging, Job),
}

pub ghost enum UploadModel {
    Flushing(FlushModel, Job, Seq<u8>),
    Staging(RawBuffer, Job, bool, Seq<u8>),
    Writing(Staging, Job, bool, Seq<u8>),
    Shooting(OneShot, Staging),
    Opening(OpenBatch, Staging, Job),
}

impl<'a> View for Upload<'a> {
    type V = UploadModel;

    open spec fn view(&self) -> UploadModel {
        match self {
            Upload::Flushing(f, job, data) => UploadModel::Flushing(f@, *job, data@),
            Upload::Staging(raw, job, recorded, data) => UploadModel::Staging(
                *raw,
                *job,
                *recorded,
                data@,
            ),
            Upload::Writing(pair, job, recorded, data) => UploadModel::Writing(
                *pair,
                *job,
                *recorded,
                data@,
            ),
            Upload::Shooting(shot, pair) => UploadModel::Shooting(*shot, *pair),
            Upload::Opening(o, pair, job) => UploadModel::Opening(*o, *pair, *job),
        }
    }
}

impl UploadModel {
    pub open spec fn next_call(self) -> Call {
        match self {
            UploadModel::Flushing(f, ..) => f.next_call(),
            UploadModel::Staging(raw, ..) => raw.next_call(),
            UploadModel::Writing(pair, job, ..) => Call::WriteMemory {
                memory: pair.memory,
                bytes: job.bytes,
            },
            UploadModel::Shooting(shot, _) => shot.next_call(),
            UploadModel::Opening(o, ..) => o.next_call(),
        }
    }

    /// The bytes that the next call writes; empty where it writes none.
    pub open spec fn payload(self) -> Seq<u8> {
        match self {
            UploadModel::Writing(_, _, _, data) => data,
            _ => Seq::empty(),
        }
    }

    /// The upload has written the bytes, or holds them to write them whole.
    pub open spec fn carries(self, data: Seq<u8>) -> bool {
        match self {
            UploadModel::Flushing(_, job, held) => held == data && job.bytes == data.len(),
            UploadModel::Staging(_, job, _, held) | UploadModel::Writing(_, job, _, held) => {
                held == data && job.bytes == data.len()
            },
            _ => true,
        }
    }

    /// An upload that submits its copy alone does so only once nothing is
    /// recorded and nothing is in flight.
    pub open spec fn held_by(self, m: ContextModel) -> bool {
        match self {
            UploadModel::Flushing(f, ..) => f.held_by(m) && f.promises_quiet(),
            UploadModel::Staging(_, _, recorded, _) | UploadModel::Writing(_, _, recorded, _) => {
                m.ledger.usable() && (recorded || m.quiet())
            },
            UploadModel::Shooting(..) => m.ledger.usable() && m.quiet(),
            UploadModel::Opening(o, ..) => o.held_by(m),
        }
    }
}

impl<'a> Upload<'a> {
    /// The call to make next.
    pub fn call(&self) -> (r: Call)
        ensures
            r == self@.next_call(),
    {
        match self {
            Upload::Flushing(f, ..) => f.call(),
            Upload::Staging(raw, ..) => raw.call(),
            Upload::Writing(pair, job, ..) => Call::WriteMemory {
                memory: pair.memory,
                bytes: job.bytes,
            },
            Upload::Shooting(shot, _) => shot.call(),
            Upload::Opening(o, ..) => o.call(),
        }
    }

    /// The bytes that the next call writes; empty where it writes none.
    pub fn payload(&self) -> (r: &'a [u8])
        ensures
            r@ == self@.payload(),
    {
        match self {
            Upload::Writing(_, _, _, data) => data,
            _ => no_bytes(),
        }
    }
}

/// No bytes at all.
fn no_bytes<'a>() -> (r: &'a [u8])
    ensures
        r@ == Seq::<u8>::empty(),
{
    let none: &'a [u8; 0] = &[];
    proof {
        assert(none@ =~= Seq::<u8>::empty());
    }
    none
}

/// Where a transfer stands.
#[derive(Debug)]
pub enum UploadNext<'a> {
    Pending(Upload<'a>),
    Finished,
    Refused(AckError),
}

pub ghost enum UploadOutcome {
    Pending(UploadModel),
    Finished,
    Refused(Failure),
}

impl<'a> View for UploadNext<'a> {
    type V = UploadOutcome;

    open spec fn view(&self) -> UploadOutcome {
        match self {
            UploadNext::Pending(u) => UploadOutcome::Pending(u@),
            UploadNext::Finished => UploadOutcome::Finished,
            UploadNext::Refused(e) => UploadOutcome::Refused(e@),
        }
    }
}

/// A readback in progress.
#[derive(Debug)]
pub enum Download {
    /// The recorded batch goes first.
    Flushing(Flush, Job),
    Staging(RawBuffer, Job, u32),
    Shooting(OneShot, Staging, Job, bool),
    Reading(Staging, Job, bool),
}

pub ghost enum DownloadModel {
    Flushing(FlushModel, Job),
    Staging(RawBuffer, Job, u32),
    Shooting(OneShot, Staging, Job, bool),
    Reading(Staging, Job, bool),
}

impl View for Download {
    type V = DownloadModel;

    open spec fn view(&self) -> DownloadModel {
        match self {
            Download::Flushing(f, job) => DownloadModel::Flushing(f@, *job),
            Download::Staging(raw, job, preference) => DownloadModel::Staging(
                *raw,
                *job,
                *preference,
            ),
            Download::Shooting(shot, pair, job, coherent) => DownloadModel::Shooting(
                *shot,
                *pair,
                *job,
                *coherent,
            ),
            Download::Reading(pair, job, coherent) => DownloadModel::Reading(
                *pair,
                *job,
                *coherent,
            ),
        }
    }
}

impl DownloadModel {
    pub open spec fn next_call(self) -> Call {
        match self {
            DownloadModel::Flushing(f, _) => f.next_call(),
            DownloadModel::Staging(raw, ..) => raw.next_call(),
            DownloadModel::Shooting(shot, ..) => shot.next_call(),
            DownloadModel::Reading(pair, job, coherent) => Call::ReadMemory {
                memory: pair.memory,
                bytes: job.bytes,
                coherent,
            },
        }
    }

    /// A readback makes its copy only once nothing is recorded and nothing is in
    /// flight: it sees every dispatch that was accepted before it.
    pub open spec fn held_by(self, m: ContextModel) -> bool {
        match self {
            DownloadModel::Flushing(f, _) => f.held_by(m) && f.promises_quiet(),
            DownloadModel::Staging(_, _, preference) => m.ledger.usable() && m.quiet()
                && preference <= 2,
            _ => m.ledger.usable() && m.quiet(),
        }
    }
}

impl Download {
    /// The call to make next.
    pub fn call(&self) -> (r: Call)
        ensures
            r == self@.next_call(),
    {
        match self {
            Download::Flushing(f, _) => f.call(),
            Download::Staging(raw, ..) => raw.call(),
            Download::Shooting(shot, ..) => shot.call(),
            Download::Reading(pair, job, coherent) => Call::ReadMemory {
                memory: pair.memory,
                bytes: job.bytes,
                coherent: *coherent,
            },
        }
    }
}

/// Where a readback stands.
#[derive(Debug)]
pub enum DownloadNext {
    Pending(Download),
    /// The bytes were read.
    Finished,
    Refused(AckError),
}

pub ghost enum DownloadOutcome {
    Pending(DownloadModel),
    Finished,
    Refused(Failure),
}

impl View for DownloadNext {
    type V = DownloadOutcome;

    open spec fn view(&self) -> DownloadOutcome {
        match self {
            DownloadNext::Pending(d) => DownloadOutcome::Pending(d@),
            DownloadNext::Finished => DownloadOutcome::Finished,
            DownloadNext::Refused(e) => DownloadOutcome::Refused(e@),
        }
    }
}

/// A submission that copies between two buffers.
pub open spec fn copy_shot(source: u64, target: u64, bytes: u64) -> OneShot {
    OneShot { work: Work::Copy { source, target, bytes }, stage: ShotStage::Allocate }
}

impl ContextModel {
    /// Why a buffer of this size is refused, where it is.
    pub open spec fn size_refusal(self, bytes: u64) -> Option<Failure> {
        let max = self.fixed.limits.max_storage_buffer_bytes;
        if self.poison_refusal() is Some {
            self.poison_refusal()
        } else if bytes == 0 || whole_words(bytes as int) > max {
            Some(
                Failure::Unsupported(
                    "buffer of "@ + decimal_text(bytes as nat) + " bytes is outside (0, "@
                        + decimal_text(max as nat) + "]"@,
                ),
            )
        } else {
            None
        }
    }

    /// The context and the buffer once a pair became one; its id was never used.
    pub open spec fn adopted(self, buffer: u64, memory: u64, bytes: u64) -> (
        ContextModel,
        BufferOutcome,
    ) {
        let id = self.next_buffer;
        (
            ContextModel {
                live: self.live.insert(id),
                next_buffer: (id + 1) as u64,
                ..self
            },
            BufferOutcome::Ready(
                BufferModel { buffer, memory, bytes, ctx_id: self.fixed.id, id },
            ),
        )
    }

    /// The context and a buffer request once it has begun: a pair of its size is
    /// taken from the pool where it holds one.
    pub open spec fn requesting(self, bytes: u64) -> (ContextModel, BufferOutcome) {
        match self.size_refusal(bytes) {
            Some(failure) => (self, BufferOutcome::Refused(failure)),
            None => {
                let allocated = whole_words(bytes as int) as u64;
                match self.pool.found(allocated) {
                    Some(i) => ContextModel {
                        pool: PoolModel {
                            hits: self.pool.hits.wrapping_add(1),
                            ..self.pool.taken(i)
                        },
                        ..self
                    }.adopted(self.pool.pairs[i].buffer, self.pool.pairs[i].memory, bytes),
                    None => (
                        ContextModel {
                            pool: PoolModel {
                                misses: self.pool.misses.wrapping_add(1),
                                ..self.pool
                            },
                            ..self
                        },
                        BufferOutcome::Pending(
                            BufferRequest { raw: storage_buffer(bytes), bytes, retried: false },
                        ),
                    ),
                }
            },
        }
    }

    /// The context and a buffer request after a reply: a failed allocation gives
    /// the pool back and is tried once more.
    pub open spec fn request_after(self, b: BufferRequest, reply: Reply) -> (
        ContextModel,
        BufferOutcome,
    ) {
        let l = b.raw.after(self.fixed.memory_types, self.ledger, reply).0;
        let m = ContextModel { ledger: l, ..self };
        match b.raw.after(self.fixed.memory_types, self.ledger, reply).1 {
            RawOutcome::Pending(raw) => (
                m,
                BufferOutcome::Pending(BufferRequest { raw, ..b }),
            ),
            RawOutcome::Ready { buffer, memory } => m.adopted(buffer, memory, b.bytes),
            RawOutcome::Refused(e) => if !b.retried && self.pool.pairs.len() > 0 {
                (
                    ContextModel {
                        pool: PoolModel {
                            reclaims: self.pool.reclaims.wrapping_add(1),
                            ..self.pool.cleared()
                        },
                        ledger: l.destroyed_all(all_pair_orders(self.pool.pairs)),
                        ..self
                    },
                    BufferOutcome::Pending(
                        BufferRequest { raw: storage_buffer(b.bytes), retried: true, ..b },
                    ),
                )
            } else {
                (m, BufferOutcome::Refused(e))
            },
        }
    }

    /// Why an upload is refused, where it is.
    pub open spec fn upload_refusal(self, b: BufferModel, bytes: nat) -> Option<Failure> {
        if self.poison_refusal() is Some {
            self.poison_refusal()
        } else if self.buffer_refusal(b) is Some {
            self.buffer_refusal(b)
        } else if bytes == 0 || bytes != b.bytes {
            Some(
                Failure::Unsupported(
                    "upload of "@ + decimal_text(bytes) + " bytes into a "@ + decimal_text(
                        b.bytes as nat,
                    ) + "-byte buffer"@,
                ),
            )
        } else {
            None
        }
    }

    /// The context and an upload once it has begun.
    pub open spec fn uploading(self, b: BufferModel, data: Seq<u8>) -> (
        ContextModel,
        UploadOutcome,
    ) {
        let job = Job { buffer: b.buffer, id: b.id, bytes: b.bytes };
        match self.upload_refusal(b, data.len()) {
            Some(failure) => (self, UploadOutcome::Refused(failure)),
            None => if self.defers_uploads() {
                (
                    self,
                    UploadOutcome::Pending(
                        UploadModel::Staging(upload_staging(job.bytes), job, true, data),
                    ),
                )
            } else {
                let m = self.flushing(FlushReason::Upload).0;
                match self.flushing(FlushReason::Upload).1 {
                    FlushOutcome::Pending(f) => (
                        m,
                        UploadOutcome::Pending(UploadModel::Flushing(f, job, data)),
                    ),
                    FlushOutcome::Finished => (
                        m,
                        UploadOutcome::Pending(
                            UploadModel::Staging(upload_staging(job.bytes), job, false, data),
                        ),
                    ),
                    FlushOutcome::Refused(e) => (m, UploadOutcome::Refused(e)),
                }
            },
        }
    }

    /// The context once a copy is recorded into the open batch; the staging pair
    /// retires into it.
    pub open spec fn with_copy(self, pair: Staging, job: Job) -> ContextModel {
        let r = self.recorder->0;
        let commands = r.commands;
        ContextModel {
            ledger: self.ledger.ordered_all(
                (if r.copy_barrier(job.id) && self.tuning.barrier_mode is All {
                    seq![Order::Barrier { commands }]
                } else {
                    Seq::empty()
                }) + seq![
                    Order::Copy {
                        commands,
                        source: pair.buffer,
                        target: job.buffer,
                        bytes: job.bytes,
                    },
                ],
            ),
            recorder: Some(
                RecorderModel { staging: r.staging.push(pair), ..r.with_copy(job.id) },
            ),
            ..self
        }
    }

    /// The context once a staging pair is released, or left allocated.
    pub open spec fn unstaged(self, pair: Staging) -> ContextModel {
        ContextModel {
            ledger: self.ledger.released(pair_orders(pair.buffer, pair.memory)),
            ..self
        }
    }

    /// The context and an upload once its bytes are staged.
    pub open spec fn upload_written(self, pair: Staging, job: Job, recorded: bool) -> (
        ContextModel,
        UploadOutcome,
    ) {
        if recorded {
            let m = self.opening().0;
            match self.opening().1 {
                OpenOutcome::Opened => (m.with_copy(pair, job), UploadOutcome::Finished),
                OpenOutcome::Pending(o) => (
                    m,
                    UploadOutcome::Pending(UploadModel::Opening(o, pair, job)),
                ),
                OpenOutcome::Refused(e) => (m.unstaged(pair), UploadOutcome::Refused(e)),
            }
        } else {
            (
                self,
                UploadOutcome::Pending(
                    UploadModel::Shooting(copy_shot(pair.buffer, job.buffer, job.bytes), pair),
                ),
            )
        }
    }

    /// The context and an upload after a reply.
    pub open spec fn upload_after(self, u: UploadModel, reply: Reply) -> (
        ContextModel,
        UploadOutcome,
    ) {
        match u {
            UploadModel::Flushing(f, job, data) => {
                let m = self.flush_after(f, reply).0;
                match self.flush_after(f, reply).1 {
                    FlushOutcome::Pending(g) => (
                        m,
                        UploadOutcome::Pending(UploadModel::Flushing(g, job, data)),
                    ),
                    FlushOutcome::Finished => (
                        m,
                        UploadOutcome::Pending(
                            UploadModel::Staging(upload_staging(job.bytes), job, false, data),
                        ),
                    ),
                    FlushOutcome::Refused(e) => (m, UploadOutcome::Refused(e)),
                }
            },
            UploadModel::Staging(raw, job, recorded, data) => {
                let (l, next) = raw.after(self.fixed.memory_types, self.ledger, reply);
                (
                    ContextModel { ledger: l, ..self },
                    match next {
                        RawOutcome::Pending(r) => UploadOutcome::Pending(
                            UploadModel::Staging(r, job, recorded, data),
                        ),
                        RawOutcome::Ready { buffer, memory } => UploadOutcome::Pending(
                            UploadModel::Writing(Staging { buffer, memory }, job, recorded, data),
                        ),
                        RawOutcome::Refused(e) => UploadOutcome::Refused(e),
                    },
                )
            },
            UploadModel::Writing(pair, job, recorded, _) => match reply {
                Reply::Failed(code) => (
                    self.unstaged(pair),
                    UploadOutcome::Refused(Failure::Vulkan(code)),
                ),
                _ => self.upload_written(pair, job, recorded),
            },
            UploadModel::Shooting(shot, pair) => {
                let (l, next) = shot.after(self.ledger, Seq::empty(), reply);
                let m = ContextModel { ledger: l, ..self };
                match next {
                    ShotOutcome::Pending(s) => (
                        m,
                        UploadOutcome::Pending(UploadModel::Shooting(s, pair)),
                    ),
                    ShotOutcome::Finished => (m.unstaged(pair), UploadOutcome::Finished),
                    ShotOutcome::Refused(e) => (m.unstaged(pair), UploadOutcome::Refused(e)),
                }
            },
            UploadModel::Opening(o, pair, job) => {
                let m = self.open_after(o, reply).0;
                match self.open_after(o, reply).1 {
                    OpenOutcome::Pending(p) => (
                        m,
                        UploadOutcome::Pending(UploadModel::Opening(p, pair, job)),
                    ),
                    OpenOutcome::Opened => (m.with_copy(pair, job), UploadOutcome::Finished),
                    OpenOutcome::Refused(e) => (m.unstaged(pair), UploadOutcome::Refused(e)),
                }
            },
        }
    }

    /// Why a readback is refused, where it is.
    pub open spec fn download_refusal(self, b: BufferModel) -> Option<Failure> {
        if self.poison_refusal() is Some {
            self.poison_refusal()
        } else {
            self.buffer_refusal(b)
        }
    }

    /// The context and a readback once it has begun.
    pub open spec fn downloading(self, b: BufferModel) -> (ContextModel, DownloadOutcome) {
        let job = Job { buffer: b.buffer, id: b.id, bytes: b.bytes };
        match self.download_refusal(b) {
            Some(failure) => (self, DownloadOutcome::Refused(failure)),
            None => {
                let m = self.flushing(FlushReason::Readback).0;
                match self.flushing(FlushReason::Readback).1 {
                    FlushOutcome::Pending(f) => (
                        m,
                        DownloadOutcome::Pending(DownloadModel::Flushing(f, job)),
                    ),
                    FlushOutcome::Finished => (
                        m,
                        DownloadOutcome::Pending(
                            DownloadModel::Staging(readback_staging(job.bytes, 0), job, 0),
                        ),
                    ),
                    FlushOutcome::Refused(e) => (m, DownloadOutcome::Refused(e)),
                }
            },
        }
    }

    /// The context and a readback after a reply: a kind of memory that cannot be
    /// had gives way to the next best.
    pub open spec fn download_after(self, d: DownloadModel, reply: Reply) -> (
        ContextModel,
        DownloadOutcome,
    ) {
        match d {
            DownloadModel::Flushing(f, job) => {
                let m = self.flush_after(f, reply).0;
                match self.flush_after(f, reply).1 {
                    FlushOutcome::Pending(g) => (
                        m,
                        DownloadOutcome::Pending(DownloadModel::Flushing(g, job)),
                    ),
                    FlushOutcome::Finished => (
                        m,
                        DownloadOutcome::Pending(
                            DownloadModel::Staging(readback_staging(job.bytes, 0), job, 0),
                        ),
                    ),
                    FlushOutcome::Refused(e) => (m, DownloadOutcome::Refused(e)),
                }
            },
            DownloadModel::Staging(raw, job, preference) => {
                let (l, next) = raw.after(self.fixed.memory_types, self.ledger, reply);
                (
                    ContextModel { ledger: l, ..self },
                    match next {
                        RawOutcome::Pending(r) => DownloadOutcome::Pending(
                            DownloadModel::Staging(r, job, preference),
                        ),
                        RawOutcome::Ready { buffer, memory } => DownloadOutcome::Pending(
                            DownloadModel::Shooting(
                                copy_shot(job.buffer, buffer, job.bytes),
                                Staging { buffer, memory },
                                job,
                                raw.flags & HOST_COHERENT == HOST_COHERENT,
                            ),
                        ),
                        RawOutcome::Refused(e) => if preference < 2 {
                            DownloadOutcome::Pending(
                                DownloadModel::Staging(
                                    readback_staging(job.bytes, (preference + 1) as u32),
                                    job,
                                    (preference + 1) as u32,
                                ),
                            )
                        } else {
                            DownloadOutcome::Refused(e)
                        },
                    },
                )
            },
            DownloadModel::Shooting(shot, pair, job, coherent) => {
                let (l, next) = shot.after(self.ledger, Seq::empty(), reply);
                let m = ContextModel { ledger: l, ..self };
                match next {
                    ShotOutcome::Pending(s) => (
                        m,
                        DownloadOutcome::Pending(DownloadModel::Shooting(s, pair, job, coherent)),
                    ),
                    ShotOutcome::Finished => (
                        m,
                        DownloadOutcome::Pending(DownloadModel::Reading(pair, job, coherent)),
                    ),
                    ShotOutcome::Refused(e) => (m.unstaged(pair), DownloadOutcome::Refused(e)),
                }
            },
            DownloadModel::Reading(pair, job, coherent) => (
                self.unstaged(pair),
                match reply {
                    Reply::Failed(code) => DownloadOutcome::Refused(Failure::Vulkan(code)),
                    _ => DownloadOutcome::Finished,
                },
            ),
        }
    }
}

/// A new buffer's id was never used before: it is no live buffer's, and every id
/// handed out later is larger.
pub proof fn law_buffer_ids_are_never_reused(
    m: ContextModel,
    buffer: u64,
    memory: u64,
    bytes: u64,
)
    requires
        m.wf(),
        m.next_buffer < u64::MAX,
    ensures
        ({
            let (after, next) = m.adopted(buffer, memory, bytes);
            &&& next matches BufferOutcome::Ready(b) && !m.live.contains(b.id)
                && after.live.contains(b.id) && b.id < after.next_buffer
            &&& after.wf()
        }),
{
    let (after, next) = m.adopted(buffer, memory, bytes);
    assert forall|id: u64| #[trigger] after.live.contains(id) implies id < after.next_buffer by {
        if id != m.next_buffer {
            assert(m.live.contains(id));
        }
    }
}

/// A readback sees every dispatch accepted before it: when its copy is recorded
/// and submitted, nothing is recorded and nothing is in flight.
pub proof fn law_a_readback_sees_every_accepted_dispatch(
    m: ContextModel,
    d: DownloadModel,
    reply: Reply,
)
    requires
        m.wf(),
        d.held_by(m),
        d.next_call().admits(reply),
        m.download_after(d, reply).1 is Pending,
        m.download_after(d, reply).1->Pending_0 is Shooting,
    ensures
        m.download_after(d, reply).0.quiet(),
{
}

/// What an upload writes is the caller's bytes, all of them: it holds them from
/// its start to the call that writes them, and that is the only call that writes.
pub proof fn law_an_upload_writes_its_bytes(
    m: ContextModel,
    b: BufferModel,
    data: Seq<u8>,
    u: UploadModel,
    reply: Reply,
)
    requires
        u.carries(data),
    ensures
        m.uploading(b, data).1 matches UploadOutcome::Pending(v) ==> v.carries(data),
        m.upload_after(u, reply).1 matches UploadOutcome::Pending(v) ==> v.carries(data),
        u.next_call() is WriteMemory <==> u is Writing,
        u is Writing ==> u.payload() == data && u.next_call()->WriteMemory_bytes == data.len(),
        !(u is Writing) ==> u.payload() == Seq::<u8>::empty(),
{
}

/// The best memory for a readback is asked for first, and only the last resort
/// does without the host's caches.
pub proof fn law_readback_prefers_cached_memory(bytes: u64, preference: u32)
    requires
        preference <= 2,
    ensures
        preference < 2 <==> readback_staging(bytes, preference).flags
            & crate::raw_buffer::HOST_CACHED == crate::raw_buffer::HOST_CACHED,
        readback_staging(bytes, 0).flags & HOST_COHERENT == HOST_COHERENT,
        readback_staging(bytes, preference).flags & crate::raw_buffer::HOST_VISIBLE
            == crate::raw_buffer::HOST_VISIBLE,
{
    assert(14u32 & 8 == 8 && 10u32 & 8 == 8 && 6u32 & 8 == 0) by (bit_vector);
    assert(14u32 & 4 == 4) by (bit_vector);
    assert(14u32 & 2 == 2 && 10u32 & 2 == 2 && 6u32 & 2 == 2) by (bit_vector);
}

impl Context {
    /// Request a device-local storage buffer. An empty request and one over the
    /// device's limit are refused; a pair of the pool is used again where one
    /// fits, always under a new id.
    pub fn buffer(&mut self, bytes: u64) -> (r: BufferNext)
        requires
            old(self).wf(),
            old(self)@.next_buffer < u64::MAX,
        ensures
            match r {
                BufferNext::Ready(c) => final(self)@.has_new_buffer(old(self)@, c@),
                _ => final(self)@.same_buffers(old(self)@),
            },
            final(self).wf(),
            (final(self)@, r@) == old(self)@.requesting(bytes),
            r matches BufferNext::Pending(b) ==> b.wf() && final(self)@.ledger.usable(),
            r matches BufferNext::Ready(b) ==> b@.wf(),
            r is Pending ==> final(self)@.next_buffer == old(self)@.next_buffer,
    {
        match self.check_live() {
            Ok(()) => {},
            Err(e) => {
                return BufferNext::Refused(e);
            },
        }
        let max: u64 = self.limits.max_storage_buffer_bytes;
        let fits: bool = match bytes.checked_add(3) {
            Some(n) => n / 4 * 4 <= max,
            None => false,
        };
        if bytes == 0 || !fits {
            let mut s = String::from_str("buffer of ");
            append_decimal(&mut s, bytes);
            s.append(" bytes is outside (0, ");
            append_decimal(&mut s, max);
            s.append("]");
            return BufferNext::Refused(AckError::Unsupported(s));
        }
        let allocated: u64 = allocation(bytes);
        proof {
            crate::pool::law_pool_serves_by_exact_size(
                self@.pool.pairs,
                allocated,
                self@.pool.pairs.len() as int,
            );
        }
        let taken: Option<Pair> = self.pool.take_pooled(allocated);
        proof {
            self.pool.lemma_wf();
        }
        match taken {
            Some(pair) => {
                proof {
                    let i = old(self)@.pool.found(allocated)->0;
                    assert(pair == old(self)@.pool.pairs[i]);
                }
                BufferNext::Ready(self.adopt(pair.buffer, pair.memory, bytes))
            },
            None => BufferNext::Pending(
                BufferRequest {
                    raw: RawBuffer::new(allocated, Usage::Storage, DEVICE_LOCAL),
                    bytes,
                    retried: false,
                },
            ),
        }
    }

    /// Make a buffer of a pair of driver objects.
    fn adopt(&mut self, buffer: u64, memory: u64, bytes: u64) -> (r: Buffer)
        requires
            old(self).wf(),
            old(self)@.next_buffer < u64::MAX,
        ensures
            final(self)@.has_new_buffer(old(self)@, r@),
            final(self).wf(),
            (final(self)@, BufferOutcome::Ready(r@)) == old(self)@.adopted(buffer, memory, bytes),
    {
        proof {
            law_buffer_ids_are_never_reused(self@, buffer, memory, bytes);
        }
        let id: u64 = self.next_buffer;
        self.next_buffer = id + 1;
        self.live_buffers.insert(id);
        proof {
            assert(self@ =~= old(self)@.adopted(buffer, memory, bytes).0);
        }
        Buffer { buffer, memory, bytes, ctx_id: self.id, id }
    }

    /// Take the reply to a buffer request's call.
    pub fn advance_buffer(&mut self, b: BufferRequest, reply: Reply) -> (r: BufferNext)
        requires
            old(self).wf(),
            old(self)@.next_buffer < u64::MAX,
            b.wf(),
            b.raw.next_call().admits(reply),
        ensures
            match r {
                BufferNext::Ready(c) => final(self)@.has_new_buffer(old(self)@, c@),
                _ => final(self)@.same_buffers(old(self)@),
            },
            final(self).wf(),
            (final(self)@, r@) == old(self)@.request_after(b, reply),
            r matches BufferNext::Pending(c) ==> c.wf(),
            r matches BufferNext::Ready(c) ==> c@.wf(),
            r is Pending ==> final(self)@.next_buffer == old(self)@.next_buffer,
            final(self)@.ledger.poisoned == old(self)@.ledger.poisoned,
    {
        match b.raw.advance(&self.memory_types, &mut self.ledger, reply) {
            RawNext::Pending(raw) => BufferNext::Pending(
                BufferRequest { raw, bytes: b.bytes, retried: b.retried },
            ),
            RawNext::Ready { buffer, memory } => BufferNext::Ready(
                self.adopt(buffer, memory, b.bytes),
            ),
            RawNext::Refused(e) => {
                if !b.retried {
                    proof {
                        law_destroyed_objects_are_counted(
                            self@.ledger,
                            all_pair_orders(self@.pool.pairs),
                        );
                    }
                    let reclaimed: bool = self.pool.reclaim(&mut self.ledger);
                    proof {
                        self.pool.lemma_wf();
                    }
                    if reclaimed {
                        return BufferNext::Pending(
                            BufferRequest {
                                raw: RawBuffer::new(
                                    allocation(b.bytes),
                                    Usage::Storage,
                                    DEVICE_LOCAL,
                                ),
                                bytes: b.bytes,
                                retried: true,
                            },
                        );
                    }
                }
                BufferNext::Refused(e)
            },
        }
    }

    /// Copy host bytes into a buffer through a staging buffer. The slice must be
    /// exactly the buffer's size. The copy is recorded into the batch where
    /// uploads are deferred; else the recorded batch is flushed, and the copy
    /// submitted and waited for.
    pub fn upload<'a>(&mut self, dst: &Buffer, data: &'a [u8]) -> (r: UploadNext<'a>)
        requires
            old(self).wf(),
        ensures
            final(self)@.same_buffers(old(self)@),
            final(self).wf(),
            (final(self)@, r@) == old(self)@.uploading(dst@, data@),
            r matches UploadNext::Pending(u) ==> u@.held_by(final(self)@),
    {
        match self.check_live() {
            Ok(()) => {},
            Err(e) => {
                return UploadNext::Refused(e);
            },
        }
        match self.check_buffer(dst) {
            Ok(()) => {},
            Err(e) => {
                return UploadNext::Refused(e);
            },
        }
        let bytes: u64 = data.len() as u64;
        if bytes == 0 || bytes != dst.bytes {
            let mut s = String::from_str("upload of ");
            append_decimal(&mut s, bytes);
            s.append(" bytes into a ");
            append_decimal(&mut s, dst.bytes);
            s.append("-byte buffer");
            return UploadNext::Refused(AckError::Unsupported(s));
        }
        let job = Job { buffer: dst.buffer, id: dst.id, bytes };
        if self.deferred_upload() {
            return UploadNext::Pending(
                Upload::Staging(RawBuffer::new(bytes, Usage::Upload, 6), job, true, data),
            );
        }
        proof {
            law_a_completing_reason_promises_quiet(self@, FlushReason::Upload);
        }
        match self.flush(FlushReason::Upload) {
            FlushNext::Pending(f) => UploadNext::Pending(Upload::Flushing(f, job, data)),
            FlushNext::Finished => UploadNext::Pending(
                Upload::Staging(RawBuffer::new(bytes, Usage::Upload, 6), job, false, data),
            ),
            FlushNext::Refused(e) => UploadNext::Refused(e),
        }
    }

    /// Record a copy into the open batch.
    fn record_copy(&mut self, pair: Staging, job: Job)
        requires
            old(self).wf(),
            old(self)@.recorder is Some,
        ensures
            final(self)@.same_buffers(old(self)@),
            final(self).wf(),
            final(self)@ == old(self)@.with_copy(pair, job),
    {
        let barriers: bool = self.barriers_enabled();
        match self.recorder.take() {
            Some(mut rec) => {
                let commands: u64 = rec.commands;
                let hazard: bool = rec.plan.record_transfer_write(job.id);
                if (hazard || rec.pending_transfer) && barriers {
                    self.ledger.order(Order::Barrier { commands });
                }
                self.ledger.order(
                    Order::Copy {
                        commands,
                        source: pair.buffer,
                        target: job.buffer,
                        bytes: job.bytes,
                    },
                );
                rec.pending_transfer = true;
                rec.staging.push(pair);
                self.recorder = Some(rec);
                proof {
                    let want = old(self)@.with_copy(pair, job);
                    assert(self@.ledger.orders =~= want.ledger.orders);
                    assert(self@ =~= want);
                }
            },
            None => {},
        }
    }

    /// Release a staging pair, or leave it allocated where the device state is
    /// unknown.
    fn unstage(&mut self, pair: Staging)
        requires
            old(self).wf(),
        ensures
            final(self)@.same_buffers(old(self)@),
            final(self).wf(),
            final(self)@ == old(self)@.unstaged(pair),
    {
        proof {
            law_destroyed_objects_are_counted(self@.ledger, pair_orders(pair.buffer, pair.memory));
            law_leaked_objects_are_counted(self@.ledger, 2);
        }
        self.ledger.release_pair(pair.buffer, pair.memory);
    }

    /// The bytes are staged: record the copy, or submit it alone.
    fn upload_recorded<'a>(&mut self, pair: Staging, job: Job, recorded: bool) -> (r:
        UploadNext<'a>)
        requires
            old(self).wf(),
            old(self)@.ledger.usable(),
            recorded || old(self)@.quiet(),
        ensures
            final(self)@.same_buffers(old(self)@),
            final(self).wf(),
            (final(self)@, r@) == old(self)@.upload_written(pair, job, recorded),
            r matches UploadNext::Pending(u) ==> u@.held_by(final(self)@),
    {
        if recorded {
            match self.open_batch() {
                OpenNext::Opened => {
                    self.record_copy(pair, job);
                    UploadNext::Finished
                },
                OpenNext::Pending(o) => UploadNext::Pending(Upload::Opening(o, pair, job)),
                OpenNext::Refused(e) => {
                    self.unstage(pair);
                    UploadNext::Refused(e)
                },
            }
        } else {
            match OneShot::new(
                &self.ledger,
                Work::Copy { source: pair.buffer, target: job.buffer, bytes: job.bytes },
            ) {
                Ok(shot) => UploadNext::Pending(Upload::Shooting(shot, pair)),
                Err(e) => {
                    self.unstage(pair);
                    UploadNext::Refused(e)
                },
            }
        }
    }

    /// Take the reply to an upload's call.
    pub fn advance_upload<'a>(&mut self, u: Upload<'a>, reply: Reply) -> (r: UploadNext<'a>)
        requires
            old(self).wf(),
            u@.held_by(old(self)@),
            u@.next_call().admits(reply),
        ensures
            final(self)@.same_buffers(old(self)@),
            final(self).wf(),
            (final(self)@, r@) == old(self)@.upload_after(u@, reply),
            r matches UploadNext::Pending(v) ==> v@.held_by(final(self)@),
    {
        match u {
            Upload::Flushing(f, job, data) => {
                proof {
                    law_a_completing_flush_leaves_nothing_behind(self@, f@, reply);
                }
                match self.advance_flush(f, reply) {
                    FlushNext::Pending(g) => UploadNext::Pending(Upload::Flushing(g, job, data)),
                    FlushNext::Finished => UploadNext::Pending(
                        Upload::Staging(
                            RawBuffer::new(job.bytes, Usage::Upload, 6),
                            job,
                            false,
                            data,
                        ),
                    ),
                    FlushNext::Refused(e) => UploadNext::Refused(e),
                }
            },
            Upload::Staging(raw, job, recorded, data) => match raw.advance(
                &self.memory_types,
                &mut self.ledger,
                reply,
            ) {
                RawNext::Pending(r) => UploadNext::Pending(
                    Upload::Staging(r, job, recorded, data),
                ),
                RawNext::Ready { buffer, memory } => UploadNext::Pending(
                    Upload::Writing(Staging { buffer, memory }, job, recorded, data),
                ),
                RawNext::Refused(e) => UploadNext::Refused(e),
            },
            Upload::Writing(pair, job, recorded, _) => match reply {
                Reply::Failed(code) => {
                    self.unstage(pair);
                    UploadNext::Refused(AckError::Vulkan(code))
                },
                _ => self.upload_recorded(pair, job, recorded),
            },
            Upload::Shooting(shot, pair) => match shot.advance(
                &mut self.ledger,
                no_bytes(),
                reply,
            ) {
                ShotNext::Pending(s) => UploadNext::Pending(Upload::Shooting(s, pair)),
                ShotNext::Finished => {
                    self.unstage(pair);
                    UploadNext::Finished
                },
                ShotNext::Refused(e) => {
                    self.unstage(pair);
                    UploadNext::Refused(e)
                },
            },
            Upload::Opening(o, pair, job) => match self.advance_open(o, reply) {
                OpenNext::Pending(p) => UploadNext::Pending(Upload::Opening(p, pair, job)),
                OpenNext::Opened => {
                    self.record_copy(pair, job);
                    UploadNext::Finished
                },
                OpenNext::Refused(e) => {
                    self.unstage(pair);
                    UploadNext::Refused(e)
                },
            },
        }
    }

    /// Copy a buffer back to the host. Everything recorded before is submitted
    /// and waited for first.
    pub fn download(&mut self, src: &Buffer) -> (r: DownloadNext)
        requires
            old(self).wf(),
        ensures
            final(self)@.same_buffers(old(self)@),
            final(self).wf(),
            (final(self)@, r@) == old(self)@.downloading(src@),
            r matches DownloadNext::Pending(d) ==> d@.held_by(final(self)@),
    {
        match self.check_live() {
            Ok(()) => {},
            Err(e) => {
                return DownloadNext::Refused(e);
            },
        }
        match self.check_buffer(src) {
            Ok(()) => {},
            Err(e) => {
                return DownloadNext::Refused(e);
            },
        }
        let job = Job { buffer: src.buffer, id: src.id, bytes: src.bytes };
        proof {
            law_a_completing_reason_promises_quiet(self@, FlushReason::Readback);
        }
        match self.flush(FlushReason::Readback) {
            FlushNext::Pending(f) => DownloadNext::Pending(Download::Flushing(f, job)),
            FlushNext::Finished => DownloadNext::Pending(
                Download::Staging(stage_readback(job.bytes, 0), job, 0),
            ),
            FlushNext::Refused(e) => DownloadNext::Refused(e),
        }
    }

    /// Take the reply to a readback's call.
    pub fn advance_download(&mut self, d: Download, reply: Reply) -> (r: DownloadNext)
        requires
            old(self).wf(),
            d@.held_by(old(self)@),
            d@.next_call().admits(reply),
        ensures
            final(self)@.same_buffers(old(self)@),
            final(self).wf(),
            (final(self)@, r@) == old(self)@.download_after(d@, reply),
            r matches DownloadNext::Pending(e) ==> e@.held_by(final(self)@),
    {
        match d {
            Download::Flushing(f, job) => {
                proof {
                    law_a_completing_flush_leaves_nothing_behind(self@, f@, reply);
                }
                match self.advance_flush(f, reply) {
                    FlushNext::Pending(g) => DownloadNext::Pending(Download::Flushing(g, job)),
                    FlushNext::Finished => DownloadNext::Pending(
                        Download::Staging(stage_readback(job.bytes, 0), job, 0),
                    ),
                    FlushNext::Refused(e) => DownloadNext::Refused(e),
                }
            },
            Download::Staging(raw, job, preference) => match raw.advance(
                &self.memory_types,
                &mut self.ledger,
                reply,
            ) {
                RawNext::Pending(r) => DownloadNext::Pending(
                    Download::Staging(r, job, preference),
                ),
                RawNext::Ready { buffer, memory } => match OneShot::new(
                    &self.ledger,
                    Work::Copy { source: job.buffer, target: buffer, bytes: job.bytes },
                ) {
                    Ok(shot) => DownloadNext::Pending(
                        Download::Shooting(
                            shot,
                            Staging { buffer, memory },
                            job,
                            raw.flags & HOST_COHERENT == HOST_COHERENT,
                        ),
                    ),
                    Err(e) => DownloadNext::Refused(e),
                },
                RawNext::Refused(e) => if preference < 2 {
                    DownloadNext::Pending(
                        Download::Staging(
                            stage_readback(job.bytes, preference + 1),
                            job,
                            preference + 1,
                        ),
                    )
                } else {
                    DownloadNext::Refused(e)
                },
            },
            Download::Shooting(shot, pair, job, coherent) => match shot.advance(
                &mut self.ledger,
                no_bytes(),
                reply,
            ) {
                ShotNext::Pending(s) => DownloadNext::Pending(
                    Download::Shooting(s, pair, job, coherent),
                ),
                ShotNext::Finished => DownloadNext::Pending(
                    Download::Reading(pair, job, coherent),
                ),
                ShotNext::Refused(e) => {
                    self.unstage(pair);
                    DownloadNext::Refused(e)
                },
            },
            Download::Reading(pair, job, coherent) => {
                self.unstage(pair);
                match reply {
                    Reply::Failed(code) => DownloadNext::Refused(AckError::Vulkan(code)),
                    _ => DownloadNext::Finished,
                }
            },
        }
    }
}

/// The size a buffer's driver object is created with.
fn allocation(bytes: u64) -> (r: u64)
    requires
        whole_words(bytes as int) <= u64::MAX,
    ensures
        r == whole_words(bytes as int),
{
    if bytes % 4 == 0 {
        bytes
    } else {
        bytes / 4 * 4 + 4
    }
}

fn stage_readback(bytes: u64, preference: u32) -> (r: RawBuffer)
    requires
        preference <= 2,
    ensures
        r == readback_staging(bytes, preference),
{
    let preferences: [u32; 3] = Context::readback_memory_preferences();
    RawBuffer::new(bytes, Usage::Readback, preferences[preference as usize])
}

/// A buffer is asked for as device-local storage of whole words, an upload's
/// staging as memory that the host sees without a flush, and a readback's first
/// as cached and coherent memory, then as cached, then as coherent alone.
pub proof fn law_memory_is_asked_for_by_its_use(bytes: u64)
    ensures
        storage_buffer(bytes).usage == Usage::Storage && storage_buffer(bytes).flags == 1,
        storage_buffer(bytes).bytes == whole_words(bytes as int) as u64,
        upload_staging(bytes).usage == Usage::Upload && upload_staging(bytes).flags == 2 + 4,
        upload_staging(bytes).bytes == bytes,
        readback_staging(bytes, 0).flags == 2 + 4 + 8,
        readback_staging(bytes, 1).flags == 2 + 8,
        readback_staging(bytes, 2).flags == 2 + 4,
        forall|p: u32| #[trigger]
            readback_staging(bytes, p).usage == Usage::Readback && readback_staging(bytes, p).bytes
                == bytes && readback_staging(bytes, p).stage is Create,
        storage_buffer(bytes).stage is Create,
        upload_staging(bytes).stage is Create,
{
}

/// A size is accepted exactly where the context is usable and the size, in whole
/// words, is neither nothing nor more than the device's limit.
pub proof fn law_sizes_are_accepted_exactly_within_the_limit(m: ContextModel, bytes: u64)
    ensures
        m.size_refusal(bytes) is None <==> m.ledger.poisoned is None && bytes >= 1 && whole_words(
            bytes as int,
        ) <= m.fixed.limits.max_storage_buffer_bytes,
        m.ledger.poisoned is None && m.size_refusal(bytes) is Some ==> m.size_refusal(bytes)
            == Some(
            Failure::Unsupported(
                "buffer of "@ + decimal_text(bytes as nat) + " bytes is outside (0, "@
                    + decimal_text(m.fixed.limits.max_storage_buffer_bytes as nat) + "]"@,
            ),
        ),
{
}

/// A new buffer has the next id, belongs to its context, and is live; it holds
/// the objects that were made for it.
pub proof fn law_adopted_buffer_is_new(m: ContextModel, buffer: u64, memory: u64, bytes: u64)
    requires
        m.next_buffer < u64::MAX,
        all_below(m.live, m.next_buffer),
    ensures
        ({
            let (after, out) = m.adopted(buffer, memory, bytes);
            let b = out->Ready_0;
            &&& out is Ready
            &&& b.buffer == buffer && b.memory == memory && b.bytes == bytes
            &&& b.ctx_id == m.fixed.id
            &&& b.id == m.next_buffer && after.next_buffer == m.next_buffer + 1
            &&& !m.live.contains(b.id)
            &&& after.live == m.live.insert(b.id)
            &&& after.ledger == m.ledger && after.pool == m.pool
        }),
{
}

/// A request is served from the pool where it holds a pair of its size, and
/// counts a hit; else it is created, and counts a miss.
pub proof fn law_requests_are_served_from_the_pool(m: ContextModel, bytes: u64)
    requires
        m.size_refusal(bytes) is None,
    ensures
        ({
            let size = whole_words(bytes as int) as u64;
            let (after, out) = m.requesting(bytes);
            &&& m.pool.found(size) matches Some(i) ==> {
                &&& out is Ready
                &&& out->Ready_0.buffer == m.pool.pairs[i].buffer
                &&& out->Ready_0.memory == m.pool.pairs[i].memory
                &&& out->Ready_0.bytes == bytes
                &&& after.pool.pairs == m.pool.pairs.remove(i)
                &&& after.pool.hits == m.pool.hits.wrapping_add(1)
                &&& after.pool.misses == m.pool.misses
                &&& after.ledger == m.ledger
            }
            &&& m.pool.found(size) is None ==> {
                &&& out is Pending
                &&& out->Pending_0.raw.next_call() == (Call::CreateBuffer {
                    bytes: size,
                    usage: Usage::Storage,
                })
                &&& out->Pending_0.bytes == bytes && !out->Pending_0.retried
                &&& after.pool.pairs == m.pool.pairs
                &&& after.pool.misses == m.pool.misses.wrapping_add(1)
                &&& after.pool.hits == m.pool.hits
                &&& after.live == m.live && after.ledger == m.ledger
            }
        }),
{
}

/// A creation that the driver refuses gives the whole pool back and is tried once
/// more; refused again, or with an empty pool, the request is refused with the
/// driver's code.
pub proof fn law_refused_creation_reclaims_the_pool_once(
    m: ContextModel,
    b: BufferRequest,
    code: i32,
)
    requires
        b.raw.stage is Create,
    ensures
        ({
            let (after, out) = m.request_after(b, Reply::Failed(code));
            &&& !b.retried && m.pool.pairs.len() > 0 ==> {
                &&& out is Pending
                &&& out->Pending_0.retried && out->Pending_0.bytes == b.bytes
                &&& out->Pending_0.raw == storage_buffer(b.bytes)
                &&& after.pool.pairs.len() == 0
                &&& after.pool.reclaims == m.pool.reclaims.wrapping_add(1)
                &&& after.ledger.orders == m.ledger.orders + all_pair_orders(m.pool.pairs)
            }
            &&& b.retried || m.pool.pairs.len() == 0 ==> {
                &&& out == BufferOutcome::Refused(Failure::Vulkan(code))
                &&& after.pool == m.pool && after.ledger == m.ledger && after.live == m.live
            }
        }),
{
    law_destroyed_objects_are_counted(m.ledger, all_pair_orders(m.pool.pairs));
}

/// An upload is accepted exactly where the context is usable, the buffer is its
/// own and live, and the bytes are as many as the buffer's, and some.
pub proof fn law_uploads_are_accepted_exactly_when_whole(
    m: ContextModel,
    b: BufferModel,
    bytes: nat,
)
    ensures
        m.upload_refusal(b, bytes) is None <==> {
            &&& m.ledger.poisoned is None
            &&& b.ctx_id == m.fixed.id
            &&& m.live.contains(b.id)
            &&& bytes == b.bytes
            &&& bytes >= 1
        },
        m.download_refusal(b) is None <==> {
            &&& m.ledger.poisoned is None
            &&& b.ctx_id == m.fixed.id
            &&& m.live.contains(b.id)
        },
{
}

/// A deferred upload stages its bytes without a flush; any other one flushes
/// what was recorded first, under its own reason.
pub proof fn law_uploads_come_after_what_was_recorded(
    m: ContextModel,
    b: BufferModel,
    data: Seq<u8>,
)
    requires
        m.upload_refusal(b, data.len()) is None,
        m.flushes.len() == 9,
    ensures
        ({
            let (after, out) = m.uploading(b, data);
            let job = Job { buffer: b.buffer, id: b.id, bytes: b.bytes };
            &&& out is Pending
            &&& m.defers_uploads() ==> after == m && out->Pending_0 == UploadModel::Staging(
                upload_staging(b.bytes),
                job,
                true,
                data,
            )
            &&& !m.defers_uploads() && m.quiet() ==> out->Pending_0 == UploadModel::Staging(
                upload_staging(b.bytes),
                job,
                false,
                data,
            )
            &&& !m.defers_uploads() && m.recorder is Some ==> {
                &&& out->Pending_0 is Flushing
                &&& out->Pending_0.next_call() == (Call::End { commands: m.recorder->0.commands })
                &&& after.flushes == m.flushes.update(1, m.flushes[1].wrapping_add(1))
            }
        }),
{
    reveal(ContextModel::flushing);
}

/// The staged bytes are written to the staging memory, and then copied from the
/// staging buffer to the target: by a submission of its own, or as a command of
/// the batch, which keeps the staging pair. A failed write releases the pair.
pub proof fn law_staged_bytes_are_copied_to_the_buffer(
    m: ContextModel,
    pair: Staging,
    job: Job,
    data: Seq<u8>,
    code: i32,
)
    requires
        m.recorder is Some,
    ensures
        UploadModel::Writing(pair, job, true, data).next_call() == (Call::WriteMemory {
            memory: pair.memory,
            bytes: job.bytes,
        }),
        m.upload_written(pair, job, false) == (
            m,
            UploadOutcome::Pending(
                UploadModel::Shooting(
                    (OneShot {
                        work: Work::Copy {
                            source: pair.buffer,
                            target: job.buffer,
                            bytes: job.bytes,
                        },
                        stage: ShotStage::Allocate,
                    }),
                    pair,
                ),
            ),
        ),
        m.upload_written(pair, job, true).1 is Finished,
        ({
            let after = m.upload_written(pair, job, true).0;
            let r = m.recorder->0;
            let copy = Order::Copy {
                commands: r.commands,
                source: pair.buffer,
                target: job.buffer,
                bytes: job.bytes,
            };
            &&& after.ledger.orders.last() == copy
            &&& r.copy_barrier(job.id) && m.tuning.barrier_mode is All ==> after.ledger.orders
                == m.ledger.orders + seq![(Order::Barrier { commands: r.commands }), copy]
            &&& !(r.copy_barrier(job.id) && m.tuning.barrier_mode is All) ==> after.ledger.orders
                == m.ledger.orders + seq![copy]
            &&& after.recorder->0.staging == r.staging + seq![pair]
            &&& after.recorder->0.pending_transfer
        }),
        m.upload_after(UploadModel::Writing(pair, job, true, data), Reply::Failed(code)) == (
            m.unstaged(pair),
            UploadOutcome::Refused(Failure::Vulkan(code)),
        ),
        m.upload_after(UploadModel::Writing(pair, job, true, data), Reply::Done)
            == m.upload_written(pair, job, true),
{
    let r = m.recorder->0;
    assert(r.staging.push(pair) =~= r.staging + seq![pair]);
    let copy = Order::Copy {
        commands: r.commands,
        source: pair.buffer,
        target: job.buffer,
        bytes: job.bytes,
    };
    let after = m.with_copy(pair, job);
    assert(m.opening() == (m, OpenOutcome::Opened));
    if r.copy_barrier(job.id) && m.tuning.barrier_mode is All {
        assert(after.ledger.orders =~= m.ledger.orders + seq![
            (Order::Barrier { commands: r.commands }),
            copy,
        ]);
    } else {
        assert(after.ledger.orders =~= m.ledger.orders + seq![copy]);
    }
}

/// A staging pair is released: its buffer is destroyed and its memory freed.
pub proof fn law_staging_is_released(m: ContextModel, pair: Staging)
    requires
        m.ledger.usable() || m.ledger.lost,
    ensures
        m.unstaged(pair).ledger.orders == m.ledger.orders + seq![
            Order::DestroyBuffer(pair.buffer),
            Order::FreeMemory(pair.memory),
        ],
        m.unstaged(pair) == (ContextModel { ledger: m.unstaged(pair).ledger, ..m }),
{
    let row = pair_orders(pair.buffer, pair.memory);
    law_destroyed_objects_are_counted(m.ledger, row);
    assert(row =~= seq![Order::DestroyBuffer(pair.buffer), Order::FreeMemory(pair.memory)]);
}

/// A readback flushes what was recorded under its own reason, stages as many
/// bytes as the buffer has, copies from the buffer to the staging buffer, and
/// reads the staging memory; it invalidates unless the memory is coherent.
pub proof fn law_readback_copies_and_reads(
    m: ContextModel,
    b: BufferModel,
    pair: Staging,
    coherent: bool,
    preference: u32,
)
    requires
        m.download_refusal(b) is None,
        m.flushes.len() == 9,
        preference <= 2,
    ensures
        ({
            let (after, out) = m.downloading(b);
            let job = Job { buffer: b.buffer, id: b.id, bytes: b.bytes };
            let bound = RawBuffer {
                stage: RawStage::Bind { buffer: pair.buffer, memory: pair.memory },
                ..readback_staging(b.bytes, preference)
            };
            let ready = m.download_after(
                DownloadModel::Staging(bound, job, preference),
                Reply::Done,
            ).1;
            &&& out is Pending
            &&& m.quiet() ==> out->Pending_0 == DownloadModel::Staging(
                readback_staging(b.bytes, 0),
                job,
                0,
            )
            &&& m.recorder is Some ==> {
                &&& out->Pending_0 is Flushing
                &&& after.flushes == m.flushes.update(0, m.flushes[0].wrapping_add(1))
            }
            &&& ready is Pending
            &&& ready->Pending_0 == DownloadModel::Shooting(
                (OneShot {
                    work: Work::Copy { source: b.buffer, target: pair.buffer, bytes: b.bytes },
                    stage: ShotStage::Allocate,
                }),
                pair,
                job,
                preference != 1,
            )
            &&& DownloadModel::Reading(pair, job, coherent).next_call() == (Call::ReadMemory {
                memory: pair.memory,
                bytes: b.bytes,
                coherent,
            })
            &&& m.download_after(DownloadModel::Reading(pair, job, coherent), Reply::Done) == (
                m.unstaged(pair),
                DownloadOutcome::Finished,
            )
        }),
{
    reveal(ContextModel::flushing);
    assert(14u32 & 4 == 4 && 10u32 & 4 == 0 && 6u32 & 4 == 4) by (bit_vector);
}

/// A readback whose staging is refused asks for the next kind of memory, and is
/// refused with the last one's reason.
pub proof fn law_readback_falls_back_by_memory(
    m: ContextModel,
    raw: RawBuffer,
    job: Job,
    preference: u32,
    reply: Reply,
)
    requires
        raw.after(m.fixed.memory_types, m.ledger, reply).1 is Refused,
        preference <= 2,
    ensures
        preference < 2 ==> m.download_after(
            DownloadModel::Staging(raw, job, preference),
            reply,
        ).1 == DownloadOutcome::Pending(
            DownloadModel::Staging(
                readback_staging(job.bytes, (preference + 1) as u32),
                job,
                (preference + 1) as u32,
            ),
        ),
        preference == 2 ==> m.download_after(
            DownloadModel::Staging(raw, job, preference),
            reply,
        ).1 == DownloadOutcome::Refused(
            raw.after(m.fixed.memory_types, m.ledger, reply).1->Refused_0,
        ),
{
}

} // verus!
