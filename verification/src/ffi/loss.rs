//! The loss entry: the plan of the caller's targets, the image it uploads, and
//! the launch that reads it.

use super::device::{
    answer, check_image, check_room, device_refusal, found_model, images, launches, left_in,
    open_device, seq_of, AckDevice, DeviceModel, Image, ImageModel, Launch, LaunchModel, Slot, Step,
    StepModel,
};
use super::reason::{first, unless, Family, Part, Reason, Refusal};
use super::{split_buffer_handle, ACK_ERR_NULL, ACK_ERR_SHAPE, ACK_ERR_SIZE, ACK_ERR_UNSUPPORTED_OP};
use crate::batch::AccessKind;
use crate::context::Buffer;
use crate::loss_ops::{
    law_push_block_holds_the_request, law_target_image_holds_the_classes, LossOp, LossPlan,
    LossPlanError, LossReduction, LossRequest,
};
use crate::words::{signed_word, word_at, words_bytes};
use vstd::prelude::*;

verus! {

/// Whether an operation reads the primary values, and whether it reads the
/// upstream gradient: what the kernel dereferences, not what a host check of
/// the data would look at.
pub fn loss_reads(op: LossOp) -> (r: (bool, bool))
    ensures
        r == (reads_primary(op), reads_upstream(op)),
{
    let primary: bool = match op {
        LossOp::NllBackward => false,
        _ => true,
    };
    let upstream: bool = match op {
        LossOp::Backward | LossOp::NllBackward => true,
        _ => false,
    };
    (primary, upstream)
}

/// The operation reads the primary values: the backward of the negative
/// log-likelihood alone does not.
pub open spec fn reads_primary(op: LossOp) -> bool {
    !(op is NllBackward)
}

/// The operation reads the upstream gradient: the backwards do.
pub open spec fn reads_upstream(op: LossOp) -> bool {
    op is Backward || op is NllBackward
}

/// The code a refused plan is returned as.
pub open spec fn plan_code(err: LossPlanError) -> i32 {
    if err is ElementLimitExceeded {
        ACK_ERR_SIZE
    } else {
        ACK_ERR_SHAPE
    }
}

/// The code a refused plan is returned as.
pub fn loss_plan_code(err: LossPlanError) -> (r: i32)
    ensures
        r == plan_code(err),
{
    match err {
        LossPlanError::ElementLimitExceeded => ACK_ERR_SIZE,
        _ => ACK_ERR_SHAPE,
    }
}

pub open spec fn plan_refusal(error: LossPlanError) -> Option<Refusal> {
    Some(Refusal { code: plan_code(error), reason: Reason::Loss { error } })
}

/// What a caller asks for, in its own words; no targets is a null pointer to
/// some.
pub ghost struct LossArguments {
    pub rows: u32,
    pub cols: u32,
    pub op: u32,
    pub reduction: u32,
    pub ignore_index: i64,
    pub targets: Option<Seq<i64>>,
}

impl LossArguments {
    /// The request that the words name.
    pub open spec fn request(self) -> LossRequest {
        LossRequest {
            rows: self.rows,
            cols: self.cols,
            op: LossOp::decode(self.op)->0,
            reduction: LossReduction::decode(self.reduction)->0,
            ignore_index: self.ignore_index,
            targets: self.targets->0,
        }
    }

    /// Refuse the arguments before any device is looked up.
    pub open spec fn refusal(self) -> Option<Refusal> {
        if self.targets is None {
            Some(Refusal { code: ACK_ERR_NULL, reason: Reason::Unnamed })
        } else if LossOp::decode(self.op) is None {
            plan_refusal(LossPlanError::OperationOutOfRange)
        } else if LossReduction::decode(self.reduction) is None {
            plan_refusal(LossPlanError::ReductionOutOfRange)
        } else {
            match self.request().refusal() {
                Some(error) => plan_refusal(error),
                None => None,
            }
        }
    }
}

/// An admitted request on a device.
pub ghost struct LossCall {
    pub device: DeviceModel,
    pub primary: u64,
    pub targets: u64,
    pub upstream: u64,
    pub out: u64,
    pub request: LossRequest,
}

impl LossCall {
    /// Refuse a buffer that the operation reads or writes by its size. The
    /// targets are written whole, so that buffer is exactly their image.
    pub open spec fn sizes(self) -> Option<Refusal> {
        let d = self.device;
        let q = self.request;
        first(
            if reads_primary(q.op) {
                d.room_refusal(self.primary, q.primary_len(), Family::Loss, Part::Primary)
            } else {
                None
            },
            first(
                d.image_refusal(self.targets, 4 * q.rows, Family::Loss, Part::Targets),
                first(
                    if reads_upstream(q.op) {
                        d.room_refusal(
                            self.upstream,
                            q.upstream_len(),
                            Family::Loss,
                            Part::Upstream,
                        )
                    } else {
                        None
                    },
                    d.room_refusal(self.out, q.output_len(), Family::Loss, Part::Output),
                ),
            ),
        )
    }

    /// The output is none of the buffers that the operation reads.
    pub open spec fn apart(self) -> bool {
        let d = self.device;
        let out = d.buffer(self.out).id;
        &&& out != d.buffer(self.targets).id
        &&& reads_primary(self.request.op) ==> out != d.buffer(self.primary).id
        &&& reads_upstream(self.request.op) ==> out != d.buffer(self.upstream).id
    }

    /// The refusal of the call, if it is refused.
    pub open spec fn refusal(self) -> Option<Refusal> {
        let d = self.device;
        first(
            d.four_refused(self.primary, self.targets, self.upstream, self.out),
            first(
                self.sizes(),
                first(
                    unless(
                        self.apart(),
                        ACK_ERR_SHAPE,
                        Reason::OutputAliases { family: Family::Loss },
                    ),
                    unless(
                        d.has(Slot::Loss),
                        ACK_ERR_UNSUPPORTED_OP,
                        Reason::Absent { family: Family::Loss },
                    ),
                ),
            ),
        )
    }

    /// The plan's own canonical targets, as the kernel reads them.
    pub open spec fn image(self) -> ImageModel {
        ImageModel {
            buffer: seq_of(self.targets),
            bytes: words_bytes(self.request.canonical().map_values(|t: i32| signed_word(t))),
            family: Family::Loss,
            part: Part::Targets,
        }
    }

    /// The launch under a normalizer.
    pub open spec fn launch(self, normalizer: u32) -> LaunchModel {
        let q = self.request;
        self.device.launch(
            Slot::Loss,
            seq![self.primary, self.targets, self.upstream, self.out],
            3,
            words_bytes(seq![q.rows, q.cols, q.op.word(), q.reduction.word(), normalizer]),
            q.groups(),
        )
    }

    /// The step writes the image and records the launch under the request's
    /// normalizer.
    pub open spec fn runs(self, step: StepModel) -> bool {
        exists|normalizer: u32|
            {
                &&& #[trigger] self.request.is_normalizer(normalizer)
                &&& step == StepModel::Run(seq![self.image()], seq![self.launch(normalizer)])
            }
    }
}

pub open spec fn values_of(values: Option<&[i64]>) -> Option<Seq<i64>> {
    match values {
        Some(v) => Some(v@),
        None => None,
    }
}

/// Read the caller's words and plan its targets.
fn read_plan(
    rows: u32,
    cols: u32,
    op: u32,
    reduction: u32,
    ignore_index: i64,
    targets: Option<&[i64]>,
) -> (r: Result<LossPlan, Refusal>)
    ensures
        ({
            let args = LossArguments {
                rows,
                cols,
                op,
                reduction,
                ignore_index,
                targets: values_of(targets),
            };
            match args.refusal() {
                Some(refusal) => r is Err && r->Err_0 == refusal,
                None => r is Ok && r->Ok_0@ == args.request() && args.request().refusal() is None,
            }
        }),
{
    let values: &[i64] = match targets {
        None => {
            return Err(Refusal { code: ACK_ERR_NULL, reason: Reason::Unnamed });
        },
        Some(v) => v,
    };
    let op = match LossOp::try_from(op) {
        Ok(o) => o,
        Err(error) => {
            return Err(Refusal { code: ACK_ERR_SHAPE, reason: Reason::Loss { error } });
        },
    };
    let reduction = match LossReduction::try_from(reduction) {
        Ok(o) => o,
        Err(error) => {
            return Err(Refusal { code: ACK_ERR_SHAPE, reason: Reason::Loss { error } });
        },
    };
    match LossPlan::new(rows, cols, op, reduction, ignore_index, values) {
        Ok(p) => Ok(p),
        Err(error) => Err(
            Refusal { code: loss_plan_code(error), reason: Reason::Loss { error } },
        ),
    }
}

/// One operation of the loss family over `rows` rows of `cols` logits. The
/// caller's targets are validated in their own domain and the plan's canonical
/// image of them is uploaded before the launch that reads it.
pub fn ack_loss(
    dev: u64,
    found: Option<&AckDevice>,
    handles: [u64; 4],
    rows: u32,
    cols: u32,
    op: u32,
    reduction: u32,
    ignore_index: i64,
    targets: Option<&[i64]>,
) -> (r: Result<Step, Refusal>)
    requires
        found matches Some(d) ==> d.wf(),
    ensures
        ({
            let args = LossArguments {
                rows,
                cols,
                op,
                reduction,
                ignore_index,
                targets: values_of(targets),
            };
            let call = LossCall {
                device: found_model(found)->0,
                primary: handles@[0],
                targets: handles@[1],
                upstream: handles@[2],
                out: handles@[3],
                request: args.request(),
            };
            match first(args.refusal(), device_refusal(dev, found_model(found))) {
                Some(refusal) => answer(r) == Err::<StepModel, Refusal>(refusal),
                None => match call.refusal() {
                    Some(refusal) => answer(r) == Err::<StepModel, Refusal>(refusal),
                    None => r is Ok && call.runs(r->Ok_0@),
                },
            }
        }),
{
    let plan = match read_plan(rows, cols, op, reduction, ignore_index, targets) {
        Ok(p) => p,
        Err(refusal) => {
            return Err(refusal);
        },
    };
    let d: &AckDevice = match open_device(dev, found) {
        Ok(d) => d,
        Err(refusal) => {
            return Err(refusal);
        },
    };
    let ghost call = LossCall {
        device: d@,
        primary: handles@[0],
        targets: handles@[1],
        upstream: handles@[2],
        out: handles@[3],
        request: plan@,
    };
    let primary: &Buffer = match d.buffer_of(handles[0]) {
        Ok(b) => b,
        Err(refusal) => {
            return Err(refusal);
        },
    };
    let image_buffer: &Buffer = match d.buffer_of(handles[1]) {
        Ok(b) => b,
        Err(refusal) => {
            return Err(refusal);
        },
    };
    let upstream: &Buffer = match d.buffer_of(handles[2]) {
        Ok(b) => b,
        Err(refusal) => {
            return Err(refusal);
        },
    };
    let out: &Buffer = match d.buffer_of(handles[3]) {
        Ok(b) => b,
        Err(refusal) => {
            return Err(refusal);
        },
    };
    let (reads_first, reads_last) = loss_reads(plan.op());
    if reads_first {
        match check_room(primary, plan.primary_len(), Family::Loss, Part::Primary) {
            Ok(()) => {},
            Err(refusal) => {
                return Err(refusal);
            },
        }
    }
    let image_len: usize = plan.targets_len() * 4;
    match check_image(image_buffer, image_len, Family::Loss, Part::Targets) {
        Ok(()) => {},
        Err(refusal) => {
            return Err(refusal);
        },
    }
    if reads_last {
        match check_room(upstream, plan.upstream_len(), Family::Loss, Part::Upstream) {
            Ok(()) => {},
            Err(refusal) => {
                return Err(refusal);
            },
        }
    }
    match check_room(out, plan.output_len(), Family::Loss, Part::Output) {
        Ok(()) => {},
        Err(refusal) => {
            return Err(refusal);
        },
    }
    if out.id() == image_buffer.id() || (reads_first && out.id() == primary.id()) || (reads_last
        && out.id() == upstream.id()) {
        return Err(
            Refusal {
                code: ACK_ERR_SHAPE,
                reason: Reason::OutputAliases { family: Family::Loss },
            },
        );
    }
    if !d.holds(Slot::Loss) {
        return Err(
            Refusal {
                code: ACK_ERR_UNSUPPORTED_OP,
                reason: Reason::Absent { family: Family::Loss },
            },
        );
    }
    let image = Image {
        buffer: split_buffer_handle(handles[1]).1,
        bytes: plan.target_bytes(),
        family: Family::Loss,
        part: Part::Targets,
    };
    let normalizer: u32 = plan.normalizer();
    let mut push: Vec<u8> = Vec::new();
    let block = plan.push_constants();
    push.extend_from_slice(&block);
    proof {
        assert(push@ =~= block@);
        assert(handles@ =~= seq![call.primary, call.targets, call.upstream, call.out]);
    }
    let launch = d.launch_on(Slot::Loss, &handles, 3, push, plan.dispatch_groups());
    let mut written: Vec<Image> = Vec::new();
    written.push(image);
    let mut all: Vec<Launch> = Vec::new();
    all.push(launch);
    let step = Step::Run(written, all);
    proof {
        assert(images(written@) =~= seq![call.image()]);
        assert(launches(all@) =~= seq![call.launch(normalizer)]);
        assert(call.request.is_normalizer(normalizer));
    }
    Ok(step)
}

/// An accepted loss call reads as its targets exactly the image it uploads,
/// which fills their buffer, and writes no buffer that it reads.
pub proof fn law_loss_reads_what_it_uploaded(c: LossCall, normalizer: u32)
    requires
        c.request.refusal() is None,
        c.refusal() is None,
    ensures
        c.image().bytes.len() == c.device.buffer(c.targets).bytes,
        left_in(seq![c.image()], c.launch(normalizer).buffers[1]) == Some(c.image().bytes),
        c.launch(normalizer).access[3].kind == AccessKind::Write,
        c.launch(normalizer).access[3].buffer != c.launch(normalizer).access[1].buffer,
        reads_primary(c.request.op) ==> c.launch(normalizer).access[3].buffer != c.launch(
            normalizer,
        ).access[0].buffer,
        reads_upstream(c.request.op) ==> c.launch(normalizer).access[3].buffer != c.launch(
            normalizer,
        ).access[2].buffer,
{
}

/// The image that an accepted call writes is the targets' own: a word per row in
/// the targets' buffer, the class or all ones where the row is ignored.
pub proof fn law_loss_image_holds_the_targets(c: LossCall, i: int)
    requires
        c.request.refusal() is None,
        0 <= i < c.request.rows,
    ensures
        c.image().buffer == c.targets % 0x1_0000_0000,
        c.image().bytes.len() == 4 * c.request.rows,
        c.request.targets[i] != c.request.ignore_index ==> word_at(c.image().bytes, i)
            == c.request.targets[i],
        c.request.targets[i] == c.request.ignore_index ==> word_at(c.image().bytes, i)
            == 0xffff_ffff,
{
    assert(c.request.target_image() == c.image().bytes);
    law_target_image_holds_the_classes(c.request, i);
}

/// The launch under a normalizer: the primary values, the targets and the
/// upstream are read and the output written, the block holds the request in its
/// five words with the normalizer last, and every row has a workgroup but in the
/// reduction.
pub proof fn law_loss_launch_holds_the_request(c: LossCall, normalizer: u32)
    ensures
        ({
            let q = c.request;
            let l = c.launch(normalizer);
            let push = l.push;
            &&& l.slot == Slot::Loss
            &&& l.buffers == seq![
                (c.primary % 0x1_0000_0000) as u32,
                (c.targets % 0x1_0000_0000) as u32,
                (c.upstream % 0x1_0000_0000) as u32,
                (c.out % 0x1_0000_0000) as u32,
            ]
            &&& l.access[0].kind == AccessKind::Read
            &&& l.access[1].kind == AccessKind::Read
            &&& l.access[2].kind == AccessKind::Read
            &&& l.access[3].kind == AccessKind::Write
            &&& push.len() == 20
            &&& word_at(push, 0) == q.rows
            &&& word_at(push, 1) == q.cols
            &&& q.op is Forward <==> word_at(push, 2) == 0
            &&& q.op is Backward <==> word_at(push, 2) == 1
            &&& q.op is Reduce <==> word_at(push, 2) == 2
            &&& q.op is NllForward <==> word_at(push, 2) == 3
            &&& q.op is NllBackward <==> word_at(push, 2) == 4
            &&& q.reduction is NoReduction <==> word_at(push, 3) == 0
            &&& q.reduction is Sum <==> word_at(push, 3) == 1
            &&& q.reduction is Mean <==> word_at(push, 3) == 2
            &&& word_at(push, 4) == normalizer
            &&& l.groups.len() == 3 && l.groups[1] == 1 && l.groups[2] == 1
            &&& q.op is Reduce ==> l.groups[0] == 1
            &&& !(q.op is Reduce) ==> l.groups[0] == q.rows
        }),
{
    law_push_block_holds_the_request(c.request, normalizer);
    assert(c.launch(normalizer).buffers =~= seq![
        (c.primary % 0x1_0000_0000) as u32,
        (c.targets % 0x1_0000_0000) as u32,
        (c.upstream % 0x1_0000_0000) as u32,
        (c.out % 0x1_0000_0000) as u32,
    ]);
}

/// An accepted call is one image and one launch, whose block carries the
/// request's normalizer.
pub proof fn law_accepted_loss_is_one_image_and_one_launch(c: LossCall, step: StepModel)
    requires
        c.runs(step),
    ensures
        step matches StepModel::Run(written, l) && written.len() == 1 && l.len() == 1 && written[0]
            == c.image() && 0 <= word_at(l[0].push, 4) <= u32::MAX && c.request.is_normalizer(
            word_at(l[0].push, 4) as u32,
        ) && l[0] == c.launch(word_at(l[0].push, 4) as u32),
{
    let normalizer = choose|normalizer: u32|
        {
            &&& #[trigger] c.request.is_normalizer(normalizer)
            &&& step == StepModel::Run(seq![c.image()], seq![c.launch(normalizer)])
        };
    law_loss_launch_holds_the_request(c, normalizer);
    let l = c.launch(normalizer);
    assert(seq![l][0] == l);
    assert(seq![c.image()][0] == c.image());
}

/// Every operation but the backward of the negative log-likelihood reads the
/// primary values, and the two backwards alone the upstream gradient.
pub proof fn law_reads_follow_the_operation(op: LossOp)
    ensures
        reads_primary(op) <==> op is Forward || op is Backward || op is Reduce || op is NllForward,
        reads_upstream(op) <==> op is Backward || op is NllBackward,
{
}

/// An admitted request is accepted on a device exactly when its handles resolve,
/// the buffers that it reads and writes hold its values, the targets' buffer is
/// exactly its rows, the output is no buffer that it reads, and the kernel is
/// there.
pub proof fn law_loss_is_accepted_exactly_when_it_can_run(c: LossCall)
    ensures
        ({
            let d = c.device;
            let q = c.request;
            let resolved = d.handle_refusal(c.primary) is None && d.handle_refusal(c.targets)
                is None && d.handle_refusal(c.upstream) is None && d.handle_refusal(c.out) is None;
            let primary = q.op is NllBackward || 4 * q.primary_len() <= d.buffer(c.primary).bytes;
            let upstream = !(q.op is Backward || q.op is NllBackward) || 4 * q.upstream_len()
                <= d.buffer(c.upstream).bytes;
            let held = primary && upstream && d.buffer(c.targets).bytes == 4 * q.rows && 4
                * q.output_len() <= d.buffer(c.out).bytes;
            let out = d.buffer(c.out).id;
            let apart = out != d.buffer(c.targets).id && (q.op is NllBackward || out != d.buffer(
                c.primary,
            ).id) && (!(q.op is Backward || q.op is NllBackward) || out != d.buffer(c.upstream).id);
            &&& c.refusal() is None <==> resolved && held && apart && d.has(Slot::Loss)
            &&& resolved && !held ==> c.refusal()->0.code == -4
            &&& resolved && held && !apart ==> c.refusal()->0.code == -3
            &&& resolved && held && apart && !d.has(Slot::Loss) ==> c.refusal()->0.code == -11
        }),
{
}

/// Arguments are refused as null without targets, as a size where there are too
/// many values, and as a shape otherwise; those that are taken up name a request
/// that is admitted.
pub proof fn law_refused_arguments_say_why(a: LossArguments)
    ensures
        a.refusal() is None <==> a.targets is Some && a.op <= 4 && a.reduction <= 2
            && a.request().refusal() is None,
        a.targets is None ==> a.refusal()->0.code == -1,
        a.targets is Some && (a.op > 4 || a.reduction > 2) ==> a.refusal()->0.code == -3,
        a.targets is Some && a.op <= 4 && a.reduction <= 2 ==> {
            &&& a.request().refusal() == Some(LossPlanError::ElementLimitExceeded)
                ==> a.refusal()->0.code == -4
            &&& a.request().refusal() is Some && a.request().refusal() != Some(
                LossPlanError::ElementLimitExceeded,
            ) ==> a.refusal()->0.code == -3
            &&& a.request().rows == a.rows && a.request().cols == a.cols && a.request().ignore_index
                == a.ignore_index && a.request().targets == a.targets->0
            &&& a.request().op.word() == a.op && a.request().reduction.word() == a.reduction
        },
{
}

/// A loss is refused for the first buffer that is too small or no exact image, in
/// the order of the operands, then for an output that is read, and then for a
/// missing kernel.
pub proof fn law_refused_loss_names_the_first_shortage(c: LossCall)
    requires
        c.device.handle_refusal(c.primary) is None,
        c.device.handle_refusal(c.targets) is None,
        c.device.handle_refusal(c.upstream) is None,
        c.device.handle_refusal(c.out) is None,
    ensures
        ({
            let d = c.device;
            let bad0 = reads_primary(c.request.op) && d.buffer(c.primary).bytes / 4 < c.request.primary_len();
            let bad1 = d.buffer(c.targets).bytes != 4 * c.request.rows;
            let bad2 = reads_upstream(c.request.op) && d.buffer(c.upstream).bytes / 4 < c.request.upstream_len();
            let bad3 = d.buffer(c.out).bytes / 4 < c.request.output_len();
            &&& bad0 ==> c.refusal() == Some(
                Refusal {
                    code: -4i32,
                    reason: Reason::TooSmall {
                        family: Family::Loss,
                        part: Part::Primary,
                        have: d.buffer(c.primary).bytes / 4,
                        need: c.request.primary_len() as u64,
                    },
                },
            )
            &&& !bad0 && bad1 ==> c.refusal() == Some(
                Refusal {
                    code: -4i32,
                    reason: Reason::ImageMismatch {
                        family: Family::Loss,
                        part: Part::Targets,
                        have: d.buffer(c.targets).bytes,
                        need: (4 * c.request.rows) as u64,
                    },
                },
            )
            &&& !bad0 && !bad1 && bad2 ==> c.refusal() == Some(
                Refusal {
                    code: -4i32,
                    reason: Reason::TooSmall {
                        family: Family::Loss,
                        part: Part::Upstream,
                        have: d.buffer(c.upstream).bytes / 4,
                        need: c.request.upstream_len() as u64,
                    },
                },
            )
            &&& !bad0 && !bad1 && !bad2 && bad3 ==> c.refusal() == Some(
                Refusal {
                    code: -4i32,
                    reason: Reason::TooSmall {
                        family: Family::Loss,
                        part: Part::Output,
                        have: d.buffer(c.out).bytes / 4,
                        need: c.request.output_len() as u64,
                    },
                },
            )
            &&& !bad0 && !bad1 && !bad2 && !bad3 && !c.apart() ==> c.refusal() == Some(
                Refusal {
                    code: -3i32,
                    reason: Reason::OutputAliases { family: Family::Loss },
                },
            )
            &&& !bad0 && !bad1 && !bad2 && !bad3 && c.apart() && !d.has(Slot::Loss) ==> c.refusal() == Some(
                Refusal { code: -11i32, reason: Reason::Absent { family: Family::Loss } },
            )
        }),
{
}

/// A refused request names its own error: the operation, the reduction, or what
/// the plan refuses.
pub proof fn law_refused_loss_requests_name_the_error(a: LossArguments)
    ensures
        a.targets is None ==> a.refusal()->0.reason is Unnamed,
        a.targets is Some && a.op > 4 ==> a.refusal()->0.reason == (Reason::Loss {
            error: LossPlanError::OperationOutOfRange,
        }),
        a.targets is Some && a.op <= 4 && a.reduction > 2 ==> a.refusal()->0.reason
            == (Reason::Loss { error: LossPlanError::ReductionOutOfRange }),
        a.targets is Some && a.op <= 4 && a.reduction <= 2 && a.request().refusal() is Some
            ==> a.refusal()->0.reason == (Reason::Loss { error: a.request().refusal()->0 }),
{
}

} // verus!
