//! The embedding entry: the plan of the caller's ids, the two images it
//! uploads, and the launch that reads them.

use super::device::{
    answer, check_image, check_room, device_refusal, found_model, images, launches, left_in,
    open_device, seq_of, AckDevice, DeviceModel, Image, ImageModel, Launch, LaunchModel, Slot, Step,
    StepModel,
};
use super::loss::values_of;
use super::reason::{first, unless, Family, Part, Reason, Refusal};
use super::{split_buffer_handle, ACK_ERR_NULL, ACK_ERR_SHAPE, ACK_ERR_SIZE, ACK_ERR_UNSUPPORTED_OP};
use crate::batch::AccessKind;
use crate::context::Buffer;
use crate::embedding_ops::{
    law_grid_has_a_workgroup_per_sixty_four_values, law_id_words_are_the_ids,
    law_offsets_span_the_tokens, law_push_block_holds_the_request, law_slot_is_in_its_bucket, slot,
    EmbeddingOp, EmbeddingPlan, EmbeddingPlanError, EmbeddingRequest,
};
use crate::words::{law_words_read_back, word_at, words_bytes};
use vstd::prelude::*;

verus! {

/// The code a refused plan is returned as.
pub open spec fn plan_code(err: EmbeddingPlanError) -> i32 {
    if err is ElementLimitExceeded {
        ACK_ERR_SIZE
    } else {
        ACK_ERR_SHAPE
    }
}

/// The code a refused plan is returned as.
pub fn embedding_plan_code(err: EmbeddingPlanError) -> (r: i32)
    ensures
        r == plan_code(err),
{
    match err {
        EmbeddingPlanError::ElementLimitExceeded => ACK_ERR_SIZE,
        _ => ACK_ERR_SHAPE,
    }
}

pub open spec fn plan_refusal(error: EmbeddingPlanError) -> Option<Refusal> {
    Some(Refusal { code: plan_code(error), reason: Reason::Embedding { error } })
}

/// What a caller asks for, in its own words; no ids is a null pointer to some.
pub ghost struct EmbeddingArguments {
    pub n: u32,
    pub vocab: u32,
    pub dim: u32,
    pub op: u32,
    pub ids: Option<Seq<i64>>,
}

impl EmbeddingArguments {
    /// The request that the words name.
    pub open spec fn request(self) -> EmbeddingRequest {
        EmbeddingRequest {
            n: self.n,
            vocab: self.vocab,
            dim: self.dim,
            op: EmbeddingOp::decode(self.op)->0,
            ids: self.ids->0,
        }
    }

    /// Refuse the arguments before any device is looked up.
    pub open spec fn refusal(self) -> Option<Refusal> {
        if self.ids is None {
            Some(Refusal { code: ACK_ERR_NULL, reason: Reason::Unnamed })
        } else if EmbeddingOp::decode(self.op) is None {
            plan_refusal(EmbeddingPlanError::OperationOutOfRange)
        } else {
            match self.request().refusal() {
                Some(error) => plan_refusal(error),
                None => None,
            }
        }
    }
}

/// An admitted request on a device.
pub ghost struct EmbeddingCall {
    pub device: DeviceModel,
    pub primary: u64,
    pub indices: u64,
    pub offsets: u64,
    pub out: u64,
    pub request: EmbeddingRequest,
}

impl EmbeddingCall {
    /// Words of the offset image: one unread for the gather, the bucket offsets
    /// for the backward.
    pub open spec fn offset_words(self) -> int {
        match self.request.op {
            EmbeddingOp::Gather => 1,
            EmbeddingOp::Backward => self.request.vocab + 1,
        }
    }

    /// Refuse a buffer by its size: both images are written whole.
    pub open spec fn sizes(self) -> Option<Refusal> {
        let d = self.device;
        let q = self.request;
        first(
            d.image_refusal(self.indices, 4 * q.n, Family::Embedding, Part::Indices),
            first(
                d.image_refusal(
                    self.offsets,
                    4 * self.offset_words(),
                    Family::Embedding,
                    Part::Offsets,
                ),
                first(
                    d.room_refusal(
                        self.primary,
                        q.primary_len(),
                        Family::Embedding,
                        Part::Primary,
                    ),
                    d.room_refusal(self.out, q.output_len(), Family::Embedding, Part::Output),
                ),
            ),
        )
    }

    /// The output is none of the other buffers.
    pub open spec fn apart(self) -> bool {
        let d = self.device;
        let out = d.buffer(self.out).id;
        &&& out != d.buffer(self.primary).id
        &&& out != d.buffer(self.indices).id
        &&& out != d.buffer(self.offsets).id
    }

    /// The refusal of the call, if it is refused.
    pub open spec fn refusal(self) -> Option<Refusal> {
        let d = self.device;
        first(
            d.four_refused(self.primary, self.indices, self.offsets, self.out),
            first(
                self.sizes(),
                first(
                    unless(
                        self.apart(),
                        ACK_ERR_SHAPE,
                        Reason::OutputAliases { family: Family::Embedding },
                    ),
                    unless(
                        d.has(Slot::Embedding),
                        ACK_ERR_UNSUPPORTED_OP,
                        Reason::Absent { family: Family::Embedding },
                    ),
                ),
            ),
        )
    }

    /// The words are the index image: the gather's ids, or the backward's
    /// positions grouped by id.
    pub open spec fn is_index_image(self, words: Seq<u32>) -> bool {
        match self.request.op {
            EmbeddingOp::Gather => words == self.request.words(),
            EmbeddingOp::Backward => self.request.is_positions(words),
        }
    }

    /// The words are the offset image.
    pub open spec fn is_offset_image(self, words: Seq<u32>) -> bool {
        match self.request.op {
            EmbeddingOp::Gather => words == seq![0u32],
            EmbeddingOp::Backward => self.request.is_offsets(words),
        }
    }

    /// An image of words in the buffer of a handle.
    pub open spec fn image(self, handle: u64, words: Seq<u32>, part: Part) -> ImageModel {
        ImageModel {
            buffer: seq_of(handle),
            bytes: words_bytes(words),
            family: Family::Embedding,
            part,
        }
    }

    pub open spec fn launch(self) -> LaunchModel {
        let q = self.request;
        self.device.launch(
            Slot::Embedding,
            seq![self.primary, self.indices, self.offsets, self.out],
            3,
            words_bytes(seq![q.n, q.vocab, q.dim, q.op.word()]),
            q.groups(),
        )
    }

    /// The step writes both images and records the launch.
    pub open spec fn runs(self, step: StepModel) -> bool {
        exists|i: Seq<u32>, o: Seq<u32>|
            {
                &&& #[trigger] self.is_index_image(i)
                &&& #[trigger] self.is_offset_image(o)
                &&& step == StepModel::Run(
                    seq![
                        self.image(self.indices, i, Part::Indices),
                        self.image(self.offsets, o, Part::Offsets),
                    ],
                    seq![self.launch()],
                )
            }
    }
}

/// Read the caller's words and plan its ids.
fn read_plan(n: u32, vocab: u32, dim: u32, op: u32, ids: Option<&[i64]>) -> (r: Result<
    EmbeddingPlan,
    Refusal,
>)
    ensures
        ({
            let args = EmbeddingArguments { n, vocab, dim, op, ids: values_of(ids) };
            match args.refusal() {
                Some(refusal) => r is Err && r->Err_0 == refusal,
                None => r is Ok && r->Ok_0@ == args.request() && args.request().refusal() is None,
            }
        }),
{
    let values: &[i64] = match ids {
        None => {
            return Err(Refusal { code: ACK_ERR_NULL, reason: Reason::Unnamed });
        },
        Some(v) => v,
    };
    let op = match EmbeddingOp::try_from(op) {
        Ok(o) => o,
        Err(error) => {
            return Err(Refusal { code: ACK_ERR_SHAPE, reason: Reason::Embedding { error } });
        },
    };
    match EmbeddingPlan::new(n, vocab, dim, op, values) {
        Ok(p) => Ok(p),
        Err(error) => Err(
            Refusal { code: embedding_plan_code(error), reason: Reason::Embedding { error } },
        ),
    }
}

/// The plan's two images, and the words they are made of.
fn plan_images(plan: &EmbeddingPlan) -> (r: (Vec<u8>, Vec<u8>))
    requires
        plan@.refusal() is None,
    ensures
        r.0@.len() == 4 * plan@.n,
        r.1@.len() == (match plan@.op {
            EmbeddingOp::Gather => 4,
            EmbeddingOp::Backward => 4 * (plan@.vocab + 1),
        }),
        exists|i: Seq<u32>|
            {
                &&& #[trigger] words_bytes(i) == r.0@
                &&& match plan@.op {
                    EmbeddingOp::Gather => i == plan@.words(),
                    EmbeddingOp::Backward => plan@.is_positions(i),
                }
            },
        exists|o: Seq<u32>|
            {
                &&& #[trigger] words_bytes(o) == r.1@
                &&& match plan@.op {
                    EmbeddingOp::Gather => o == seq![0u32],
                    EmbeddingOp::Backward => plan@.is_offsets(o),
                }
            },
{
    let indices = plan.index_bytes();
    let offsets = plan.offset_bytes();
    proof {
        assert(words_bytes(plan@.words()).len() == 4 * plan@.n);
        assert(words_bytes(seq![0u32]).len() == 4);
        if plan@.op is Backward {
            let i = choose|i: Seq<u32>| #[trigger] plan@.is_positions(i) && indices@ == words_bytes(i);
            let o = choose|o: Seq<u32>| #[trigger] plan@.is_offsets(o) && offsets@ == words_bytes(o);
            assert(words_bytes(i).len() == 4 * plan@.n);
            assert(words_bytes(o).len() == 4 * (plan@.vocab + 1));
        }
    }
    (indices, offsets)
}

/// The embedding gather or its dense backward over rows of `dim`. The caller's
/// ids are validated in their own domain, and the plan's images of them are
/// uploaded before the launch that reads them.
pub fn ack_embedding(
    dev: u64,
    found: Option<&AckDevice>,
    handles: [u64; 4],
    n: u32,
    vocab: u32,
    dim: u32,
    op: u32,
    ids: Option<&[i64]>,
) -> (r: Result<Step, Refusal>)
    requires
        found matches Some(d) ==> d.wf(),
    ensures
        ({
            let args = EmbeddingArguments { n, vocab, dim, op, ids: values_of(ids) };
            let call = EmbeddingCall {
                device: found_model(found)->0,
                primary: handles@[0],
                indices: handles@[1],
                offsets: handles@[2],
                out: handles@[3],
                request: args.request(),
            };
            match first(args.refusal(), device_refusal(dev, found_model(found))) {
                Some(refusal) => answer(r) == Err::<StepModel, Refusal>(refusal),
                None => match call.refusal() {
                    Some(refusal) => answer(r) == Err::<StepModel, Refusal>(refusal),
                    None => r is Ok && call.runs(r->Ok_0@),
                },
            }
        }),
{
    let plan = match read_plan(n, vocab, dim, op, ids) {
        Ok(p) => p,
        Err(refusal) => {
            return Err(refusal);
        },
    };
    let d: &AckDevice = match open_device(dev, found) {
        Ok(d) => d,
        Err(refusal) => {
            return Err(refusal);
        },
    };
    let ghost call = EmbeddingCall {
        device: d@,
        primary: handles@[0],
        indices: handles@[1],
        offsets: handles@[2],
        out: handles@[3],
        request: plan@,
    };
    let primary: &Buffer = match d.buffer_of(handles[0]) {
        Ok(b) => b,
        Err(refusal) => {
            return Err(refusal);
        },
    };
    let indices: &Buffer = match d.buffer_of(handles[1]) {
        Ok(b) => b,
        Err(refusal) => {
            return Err(refusal);
        },
    };
    let offsets: &Buffer = match d.buffer_of(handles[2]) {
        Ok(b) => b,
        Err(refusal) => {
            return Err(refusal);
        },
    };
    let out: &Buffer = match d.buffer_of(handles[3]) {
        Ok(b) => b,
        Err(refusal) => {
            return Err(refusal);
        },
    };
    let (index_image, offset_image) = plan_images(&plan);
    match check_image(indices, index_image.len(), Family::Embedding, Part::Indices) {
        Ok(()) => {},
        Err(refusal) => {
            return Err(refusal);
        },
    }
    match check_image(offsets, offset_image.len(), Family::Embedding, Part::Offsets) {
        Ok(()) => {},
        Err(refusal) => {
            return Err(refusal);
        },
    }
    match check_room(primary, plan.primary_len(), Family::Embedding, Part::Primary) {
        Ok(()) => {},
        Err(refusal) => {
            return Err(refusal);
        },
    }
    match check_room(out, plan.output_len(), Family::Embedding, Part::Output) {
        Ok(()) => {},
        Err(refusal) => {
            return Err(refusal);
        },
    }
    if out.id() == primary.id() || out.id() == indices.id() || out.id() == offsets.id() {
        return Err(
            Refusal {
                code: ACK_ERR_SHAPE,
                reason: Reason::OutputAliases { family: Family::Embedding },
            },
        );
    }
    if !d.holds(Slot::Embedding) {
        return Err(
            Refusal {
                code: ACK_ERR_UNSUPPORTED_OP,
                reason: Reason::Absent { family: Family::Embedding },
            },
        );
    }
    let ghost i = choose|i: Seq<u32>|
        #[trigger] words_bytes(i) == index_image@ && call.is_index_image(i);
    let ghost o = choose|o: Seq<u32>|
        #[trigger] words_bytes(o) == offset_image@ && call.is_offset_image(o);
    let mut written: Vec<Image> = Vec::new();
    written.push(
        Image {
            buffer: split_buffer_handle(handles[1]).1,
            bytes: index_image,
            family: Family::Embedding,
            part: Part::Indices,
        },
    );
    written.push(
        Image {
            buffer: split_buffer_handle(handles[2]).1,
            bytes: offset_image,
            family: Family::Embedding,
            part: Part::Offsets,
        },
    );
    let mut push: Vec<u8> = Vec::new();
    let block = plan.push_constants();
    push.extend_from_slice(&block);
    proof {
        assert(push@ =~= block@);
        assert(handles@ =~= seq![call.primary, call.indices, call.offsets, call.out]);
    }
    let launch = d.launch_on(Slot::Embedding, &handles, 3, push, plan.dispatch_groups());
    let mut all: Vec<Launch> = Vec::new();
    all.push(launch);
    let step = Step::Run(written, all);
    proof {
        assert(images(written@) =~= seq![
            call.image(call.indices, i, Part::Indices),
            call.image(call.offsets, o, Part::Offsets),
        ]);
        assert(launches(all@) =~= seq![call.launch()]);
        assert(call.is_index_image(i) && call.is_offset_image(o));
    }
    Ok(step)
}

/// An accepted embedding call writes no buffer that it reads, each image fills
/// its buffer, and where the two buffers are not one the launch reads exactly
/// the images that it uploads.
pub proof fn law_embedding_reads_what_it_uploaded(c: EmbeddingCall, i: Seq<u32>, o: Seq<u32>)
    requires
        c.request.refusal() is None,
        c.refusal() is None,
        c.is_index_image(i),
        c.is_offset_image(o),
    ensures
        ({
            let indices = c.image(c.indices, i, Part::Indices);
            let offsets = c.image(c.offsets, o, Part::Offsets);
            let at = c.launch().buffers;
            &&& indices.bytes.len() == c.device.buffer(c.indices).bytes
            &&& offsets.bytes.len() == c.device.buffer(c.offsets).bytes
            &&& left_in(seq![indices, offsets], at[2]) == Some(offsets.bytes)
            &&& at[1] != at[2] ==> left_in(seq![indices, offsets], at[1]) == Some(indices.bytes)
        }),
        c.launch().access[3].kind == AccessKind::Write,
        forall|k: int|
            0 <= k < 3 ==> (#[trigger] c.launch().access[k]).buffer != c.launch().access[3].buffer,
{
    let indices = c.image(c.indices, i, Part::Indices);
    let offsets = c.image(c.offsets, o, Part::Offsets);
    reveal_with_fuel(left_in, 2);
    assert(seq![indices, offsets].drop_last() =~= seq![indices]);
}

/// The launch: the table or the upstream rows, the indices and the offsets are
/// read and the output written, the block holds the request in its four words,
/// and the grid covers the output in groups of 64.
pub proof fn law_embedding_launch_holds_the_request(c: EmbeddingCall)
    requires
        c.request.refusal() is None,
    ensures
        ({
            let q = c.request;
            let l = c.launch();
            &&& l.slot == Slot::Embedding
            &&& l.buffers == seq![
                (c.primary % 0x1_0000_0000) as u32,
                (c.indices % 0x1_0000_0000) as u32,
                (c.offsets % 0x1_0000_0000) as u32,
                (c.out % 0x1_0000_0000) as u32,
            ]
            &&& l.access[0].kind == AccessKind::Read
            &&& l.access[1].kind == AccessKind::Read
            &&& l.access[2].kind == AccessKind::Read
            &&& l.access[3].kind == AccessKind::Write
            &&& l.push.len() == 16
            &&& word_at(l.push, 0) == q.n
            &&& word_at(l.push, 1) == q.vocab
            &&& word_at(l.push, 2) == q.dim
            &&& q.op is Gather <==> word_at(l.push, 3) == 0
            &&& q.op is Backward <==> word_at(l.push, 3) == 1
            &&& (l.groups[0] - 1) * 64 < q.output_len() <= l.groups[0] * 64
            &&& l.groups[1] == 1 && l.groups[2] == 1
        }),
{
    law_push_block_holds_the_request(c.request);
    law_grid_has_a_workgroup_per_sixty_four_values(c.request);
    assert(c.launch().buffers =~= seq![
        (c.primary % 0x1_0000_0000) as u32,
        (c.indices % 0x1_0000_0000) as u32,
        (c.offsets % 0x1_0000_0000) as u32,
        (c.out % 0x1_0000_0000) as u32,
    ]);
}

/// The images of a gather are its ids, a word each, and one unread zero; those of
/// a backward are the tokens in order of their ids, and where each id's begin.
pub proof fn law_embedding_images_hold_the_tokens(c: EmbeddingCall, i: Seq<u32>, o: Seq<u32>, t: int)
    requires
        c.request.refusal() is None,
        c.is_index_image(i),
        c.is_offset_image(o),
        0 <= t < c.request.n,
    ensures
        ({
            let indices = c.image(c.indices, i, Part::Indices);
            let offsets = c.image(c.offsets, o, Part::Offsets);
            let q = c.request;
            &&& indices.buffer == c.indices % 0x1_0000_0000
            &&& offsets.buffer == c.offsets % 0x1_0000_0000
            &&& indices.bytes.len() == 4 * q.n
            &&& q.op is Gather ==> word_at(indices.bytes, t) == q.ids[t] && offsets.bytes.len() == 4
                && word_at(offsets.bytes, 0) == 0
            &&& q.op is Backward ==> offsets.bytes.len() == 4 * (q.vocab + 1) && word_at(
                offsets.bytes,
                0,
            ) == 0 && word_at(offsets.bytes, q.vocab as int) == q.n && word_at(
                indices.bytes,
                slot(q.words(), t),
            ) == t
        }),
{
    let q = c.request;
    law_words_read_back(i);
    law_words_read_back(o);
    if q.op is Gather {
        law_id_words_are_the_ids(q, t);
    } else {
        law_offsets_span_the_tokens(q, o);
        law_id_words_are_the_ids(q, t);
        law_slot_is_in_its_bucket(q.words(), t);
    }
}

/// An accepted call is two images and one launch.
pub proof fn law_accepted_embedding_is_two_images_and_one_launch(c: EmbeddingCall, step: StepModel)
    requires
        c.runs(step),
    ensures
        step matches StepModel::Run(written, l) && written.len() == 2 && l.len() == 1 && l[0]
            == c.launch() && (exists|i: Seq<u32>, o: Seq<u32>| #[trigger] c.is_index_image(i)
            && #[trigger] c.is_offset_image(o) && written[0] == c.image(c.indices, i, Part::Indices)
            && written[1] == c.image(c.offsets, o, Part::Offsets)),
{
    let (i, o) = choose|i: Seq<u32>, o: Seq<u32>|
        {
            &&& #[trigger] c.is_index_image(i)
            &&& #[trigger] c.is_offset_image(o)
            &&& step == StepModel::Run(
                seq![
                    c.image(c.indices, i, Part::Indices),
                    c.image(c.offsets, o, Part::Offsets),
                ],
                seq![c.launch()],
            )
        };
    let written = seq![c.image(c.indices, i, Part::Indices), c.image(c.offsets, o, Part::Offsets)];
    assert(written[0] == c.image(c.indices, i, Part::Indices));
    assert(written[1] == c.image(c.offsets, o, Part::Offsets));
}

/// An admitted request is accepted on a device exactly when its handles resolve,
/// the index and offset buffers are exactly their images, the other two hold
/// their values, the output is none of the others, and the kernel is there.
pub proof fn law_embedding_is_accepted_exactly_when_it_can_run(c: EmbeddingCall)
    ensures
        ({
            let d = c.device;
            let q = c.request;
            let resolved = d.handle_refusal(c.primary) is None && d.handle_refusal(c.indices)
                is None && d.handle_refusal(c.offsets) is None && d.handle_refusal(c.out) is None;
            let offset_words = if q.op is Gather {
                1
            } else {
                q.vocab + 1
            };
            let held = d.buffer(c.indices).bytes == 4 * q.n && d.buffer(c.offsets).bytes == 4
                * offset_words && 4 * q.primary_len() <= d.buffer(c.primary).bytes && 4
                * q.output_len() <= d.buffer(c.out).bytes;
            let out = d.buffer(c.out).id;
            let apart = out != d.buffer(c.primary).id && out != d.buffer(c.indices).id && out
                != d.buffer(c.offsets).id;
            &&& c.refusal() is None <==> resolved && held && apart && d.has(Slot::Embedding)
            &&& resolved && !held ==> c.refusal()->0.code == -4
            &&& resolved && held && !apart ==> c.refusal()->0.code == -3
            &&& resolved && held && apart && !d.has(Slot::Embedding) ==> c.refusal()->0.code == -11
        }),
{
}

/// Arguments are refused as null without ids, as a size where there are too many
/// values, and as a shape otherwise; those that are taken up name a request that
/// is admitted.
pub proof fn law_refused_arguments_say_why(a: EmbeddingArguments)
    ensures
        a.refusal() is None <==> a.ids is Some && a.op <= 1 && a.request().refusal() is None,
        a.ids is None ==> a.refusal()->0.code == -1,
        a.ids is Some && a.op > 1 ==> a.refusal()->0.code == -3,
        a.ids is Some && a.op <= 1 ==> {
            &&& a.request().refusal() == Some(EmbeddingPlanError::ElementLimitExceeded)
                ==> a.refusal()->0.code == -4
            &&& a.request().refusal() is Some && a.request().refusal() != Some(
                EmbeddingPlanError::ElementLimitExceeded,
            ) ==> a.refusal()->0.code == -3
            &&& a.request().n == a.n && a.request().vocab == a.vocab && a.request().dim == a.dim
                && a.request().ids == a.ids->0 && a.request().op.word() == a.op
        },
{
}

/// An embedding is refused for the first image or buffer that does not fit, the
/// two images first, then for an output that is read, and then for a missing
/// kernel.
pub proof fn law_refused_embedding_names_the_first_shortage(c: EmbeddingCall)
    requires
        c.device.handle_refusal(c.primary) is None,
        c.device.handle_refusal(c.indices) is None,
        c.device.handle_refusal(c.offsets) is None,
        c.device.handle_refusal(c.out) is None,
    ensures
        ({
            let d = c.device;
            let bad0 = d.buffer(c.indices).bytes != 4 * c.request.n;
            let bad1 = d.buffer(c.offsets).bytes != 4 * c.offset_words();
            let bad2 = d.buffer(c.primary).bytes / 4 < c.request.primary_len();
            let bad3 = d.buffer(c.out).bytes / 4 < c.request.output_len();
            &&& bad0 ==> c.refusal() == Some(
                Refusal {
                    code: -4i32,
                    reason: Reason::ImageMismatch {
                        family: Family::Embedding,
                        part: Part::Indices,
                        have: d.buffer(c.indices).bytes,
                        need: (4 * c.request.n) as u64,
                    },
                },
            )
            &&& !bad0 && bad1 ==> c.refusal() == Some(
                Refusal {
                    code: -4i32,
                    reason: Reason::ImageMismatch {
                        family: Family::Embedding,
                        part: Part::Offsets,
                        have: d.buffer(c.offsets).bytes,
                        need: (4 * c.offset_words()) as u64,
                    },
                },
            )
            &&& !bad0 && !bad1 && bad2 ==> c.refusal() == Some(
                Refusal {
                    code: -4i32,
                    reason: Reason::TooSmall {
                        family: Family::Embedding,
                        part: Part::Primary,
                        have: d.buffer(c.primary).bytes / 4,
                        need: c.request.primary_len() as u64,
                    },
                },
            )
            &&& !bad0 && !bad1 && !bad2 && bad3 ==> c.refusal() == Some(
                Refusal {
                    code: -4i32,
                    reason: Reason::TooSmall {
                        family: Family::Embedding,
                        part: Part::Output,
                        have: d.buffer(c.out).bytes / 4,
                        need: c.request.output_len() as u64,
                    },
                },
            )
            &&& !bad0 && !bad1 && !bad2 && !bad3 && !c.apart() ==> c.refusal() == Some(
                Refusal {
                    code: -3i32,
                    reason: Reason::OutputAliases { family: Family::Embedding },
                },
            )
            &&& !bad0 && !bad1 && !bad2 && !bad3 && c.apart() && !d.has(Slot::Embedding) ==> c.refusal() == Some(
                Refusal { code: -11i32, reason: Reason::Absent { family: Family::Embedding } },
            )
        }),
{
}

/// A refused request names its own error: the operation, or what the plan
/// refuses.
pub proof fn law_refused_embedding_requests_name_the_error(a: EmbeddingArguments)
    ensures
        a.ids is None ==> a.refusal()->0.reason is Unnamed,
        a.ids is Some && a.op > 1 ==> a.refusal()->0.reason == (Reason::Embedding {
            error: EmbeddingPlanError::OperationOutOfRange,
        }),
        a.ids is Some && a.op <= 1 && a.request().refusal() is Some ==> a.refusal()->0.reason
            == (Reason::Embedding { error: a.request().refusal()->0 }),
{
}

} // verus!
