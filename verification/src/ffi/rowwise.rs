//! The row entry: softmax, RMSNorm and log-softmax over contiguous rows. What
//! the row plan makes of a block (its lengths and grid, or why it is refused) is
//! handed in; which buffers the operation reads, and what they must hold, is
//! decided here.

use super::device::{
    answer, block_of, check_room, device_refusal, found_model, one_launch, open_device, run_one,
    AckDevice, DeviceModel, LaunchModel, Slot, Step, StepModel,
};
use super::reason::{first, unless, Family, Part, Reason, Refusal, RowPlanError};
use super::{ACK_ERR_NULL, ACK_ERR_SHAPE, ACK_ERR_SIZE, ACK_ERR_UNSUPPORTED_OP, ROWWISE_PUSH_BYTES};
use crate::batch::AccessKind;
use crate::context::Buffer;
use crate::words::{read_word, word_at};
use vstd::prelude::*;

verus! {

/// An operation of the row family.
#[derive(Clone, Copy, Debug, PartialEq, Eq, Structural)]
pub enum RowOp {
    SoftmaxForward,
    SoftmaxBackward,
    RmsNormForward,
    RmsNormBackward,
    RmsNormGammaReduction,
    LogSoftmaxForward,
    LogSoftmaxBackward,
}

impl RowOp {
    /// What a word names.
    pub open spec fn decode(word: int) -> Option<RowOp> {
        if word == 0 {
            Some(RowOp::SoftmaxForward)
        } else if word == 1 {
            Some(RowOp::SoftmaxBackward)
        } else if word == 2 {
            Some(RowOp::RmsNormForward)
        } else if word == 3 {
            Some(RowOp::RmsNormBackward)
        } else if word == 4 {
            Some(RowOp::RmsNormGammaReduction)
        } else if word == 5 {
            Some(RowOp::LogSoftmaxForward)
        } else if word == 6 {
            Some(RowOp::LogSoftmaxBackward)
        } else {
            None
        }
    }

    /// The operation reads the upstream gradient: the softmax and RMSNorm
    /// backwards do.
    pub open spec fn reads_upstream(self) -> bool {
        self is SoftmaxBackward || self is RmsNormBackward || self is LogSoftmaxBackward
    }

    /// The operation reads gamma: RMSNorm does, forward and backward.
    pub open spec fn reads_gamma(self) -> bool {
        self is RmsNormForward || self is RmsNormBackward
    }

    /// What a word names.
    pub fn from_word(word: u32) -> (r: Result<Self, RowPlanError>)
        ensures
            match RowOp::decode(word as int) {
                Some(op) => r is Ok && r->Ok_0 == op,
                None => r is Err && r->Err_0 == RowPlanError::OperationOutOfRange,
            },
    {
        match word {
            0 => Ok(RowOp::SoftmaxForward),
            1 => Ok(RowOp::SoftmaxBackward),
            2 => Ok(RowOp::RmsNormForward),
            3 => Ok(RowOp::RmsNormBackward),
            4 => Ok(RowOp::RmsNormGammaReduction),
            5 => Ok(RowOp::LogSoftmaxForward),
            6 => Ok(RowOp::LogSoftmaxBackward),
            _ => Err(RowPlanError::OperationOutOfRange),
        }
    }
}

/// Whether an operation reads the upstream gradient, and whether it reads
/// gamma; every operation reads the primary values.
pub fn rowwise_reads(op: RowOp) -> (r: (bool, bool))
    ensures
        r == (op.reads_upstream(), op.reads_gamma()),
{
    let upstream: bool = match op {
        RowOp::SoftmaxBackward | RowOp::RmsNormBackward | RowOp::LogSoftmaxBackward => true,
        _ => false,
    };
    let gamma: bool = match op {
        RowOp::RmsNormForward | RowOp::RmsNormBackward => true,
        _ => false,
    };
    (upstream, gamma)
}

/// The code a refused plan is returned as.
pub open spec fn plan_code(err: RowPlanError) -> i32 {
    if err is ElementLimitExceeded {
        ACK_ERR_SIZE
    } else {
        ACK_ERR_SHAPE
    }
}

/// The code a refused plan is returned as.
pub fn rowwise_plan_code(err: RowPlanError) -> (r: i32)
    ensures
        r == plan_code(err),
{
    match err {
        RowPlanError::ElementLimitExceeded => ACK_ERR_SIZE,
        _ => ACK_ERR_SHAPE,
    }
}

/// What a row plan derives from its block: the elements of each buffer and the
/// grid.
#[derive(Clone, Copy, Debug)]
pub struct RowShape {
    pub primary_len: usize,
    pub upstream_len: usize,
    pub gamma_len: usize,
    pub output_len: usize,
    pub groups: [u32; 3],
}

/// Refuse a request before any device is looked up.
pub open spec fn request_refusal(
    plan: Option<Seq<u8>>,
    planned: Result<RowShape, RowPlanError>,
) -> Option<Refusal> {
    match plan {
        None => Some(Refusal { code: ACK_ERR_NULL, reason: Reason::Unnamed }),
        Some(p) => if p.len() != ROWWISE_PUSH_BYTES {
            Some(
                Refusal {
                    code: ACK_ERR_SIZE,
                    reason: Reason::BlockLength {
                        family: Family::Rowwise,
                        len: p.len() as usize,
                        need: ROWWISE_PUSH_BYTES,
                    },
                },
            )
        } else if RowOp::decode(word_at(p, 2)) is None {
            Some(
                Refusal {
                    code: ACK_ERR_SHAPE,
                    reason: Reason::Rowwise { error: RowPlanError::OperationOutOfRange },
                },
            )
        } else {
            match planned {
                Err(error) => Some(
                    Refusal { code: plan_code(error), reason: Reason::Rowwise { error } },
                ),
                Ok(_) => None,
            }
        },
    }
}

/// A planned row operation on a device's buffers.
pub ghost struct RowCall {
    pub device: DeviceModel,
    pub primary: u64,
    pub upstream: u64,
    pub gamma: u64,
    pub out: u64,
    pub op: RowOp,
    pub block: Seq<u8>,
    pub shape: RowShape,
}

impl RowCall {
    /// Refuse a buffer that holds fewer elements than the plan needs of it; one
    /// that the operation does not read may be of any size.
    pub open spec fn sizes(self) -> Option<Refusal> {
        let d = self.device;
        let s = self.shape;
        first(
            d.room_refusal(self.primary, s.primary_len as int, Family::Rowwise, Part::Primary),
            first(
                if self.op.reads_upstream() {
                    d.room_refusal(
                        self.upstream,
                        s.upstream_len as int,
                        Family::Rowwise,
                        Part::Upstream,
                    )
                } else {
                    None
                },
                first(
                    if self.op.reads_gamma() {
                        d.room_refusal(
                            self.gamma,
                            s.gamma_len as int,
                            Family::Rowwise,
                            Part::Gamma,
                        )
                    } else {
                        None
                    },
                    d.room_refusal(self.out, s.output_len as int, Family::Rowwise, Part::Output),
                ),
            ),
        )
    }

    /// The output is none of the buffers that the operation reads.
    pub open spec fn apart(self) -> bool {
        let d = self.device;
        let out = d.buffer(self.out).id;
        &&& out != d.buffer(self.primary).id
        &&& self.op.reads_upstream() ==> out != d.buffer(self.upstream).id
        &&& self.op.reads_gamma() ==> out != d.buffer(self.gamma).id
    }

    /// The refusal of the call, if it is refused.
    pub open spec fn refusal(self) -> Option<Refusal> {
        let d = self.device;
        first(
            d.four_refused(self.primary, self.upstream, self.gamma, self.out),
            first(
                self.sizes(),
                first(
                    unless(
                        self.apart(),
                        ACK_ERR_SHAPE,
                        Reason::OutputAliases { family: Family::Rowwise },
                    ),
                    unless(
                        d.has(Slot::Rowwise),
                        ACK_ERR_UNSUPPORTED_OP,
                        Reason::Absent { family: Family::Rowwise },
                    ),
                ),
            ),
        )
    }

    pub open spec fn launch(self) -> LaunchModel {
        self.device.launch(
            Slot::Rowwise,
            seq![self.primary, self.upstream, self.gamma, self.out],
            3,
            self.block,
            self.shape.groups@,
        )
    }

    pub open spec fn answer(self) -> Result<StepModel, Refusal> {
        match self.refusal() {
            Some(refusal) => Err(refusal),
            None => Ok(run_one(self.launch())),
        }
    }
}

/// One row operation over `rows` contiguous rows of `cols` elements. The block
/// is the kernel's own push block: rows, cols, the operation, epsilon bits.
pub fn ack_rowwise(
    dev: u64,
    found: Option<&AckDevice>,
    handles: [u64; 4],
    plan: Option<&[u8]>,
    planned: Result<RowShape, RowPlanError>,
) -> (r: Result<Step, Refusal>)
    requires
        found matches Some(d) ==> d.wf(),
    ensures
        match first(
            request_refusal(block_of(plan), planned),
            device_refusal(dev, found_model(found)),
        ) {
            Some(refusal) => answer(r) == Err::<StepModel, Refusal>(refusal),
            None => answer(r) == (RowCall {
                device: found_model(found)->0,
                primary: handles@[0],
                upstream: handles@[1],
                gamma: handles@[2],
                out: handles@[3],
                op: RowOp::decode(word_at(plan->0@, 2))->0,
                block: plan->0@,
                shape: planned->Ok_0,
            }).answer(),
        },
{
    let block: &[u8] = match plan {
        None => {
            return Err(Refusal { code: ACK_ERR_NULL, reason: Reason::Unnamed });
        },
        Some(p) => p,
    };
    if block.len() != ROWWISE_PUSH_BYTES {
        return Err(
            Refusal {
                code: ACK_ERR_SIZE,
                reason: Reason::BlockLength {
                    family: Family::Rowwise,
                    len: block.len(),
                    need: ROWWISE_PUSH_BYTES,
                },
            },
        );
    }
    let op = match RowOp::from_word(read_word(block, 2)) {
        Ok(op) => op,
        Err(error) => {
            return Err(Refusal { code: ACK_ERR_SHAPE, reason: Reason::Rowwise { error } });
        },
    };
    let shape = match planned {
        Ok(s) => s,
        Err(error) => {
            return Err(
                Refusal { code: rowwise_plan_code(error), reason: Reason::Rowwise { error } },
            );
        },
    };
    let d: &AckDevice = match open_device(dev, found) {
        Ok(d) => d,
        Err(refusal) => {
            return Err(refusal);
        },
    };
    let primary: &Buffer = match d.buffer_of(handles[0]) {
        Ok(b) => b,
        Err(refusal) => {
            return Err(refusal);
        },
    };
    let upstream: &Buffer = match d.buffer_of(handles[1]) {
        Ok(b) => b,
        Err(refusal) => {
            return Err(refusal);
        },
    };
    let gamma: &Buffer = match d.buffer_of(handles[2]) {
        Ok(b) => b,
        Err(refusal) => {
            return Err(refusal);
        },
    };
    let out: &Buffer = match d.buffer_of(handles[3]) {
        Ok(b) => b,
        Err(refusal) => {
            return Err(refusal);
        },
    };
    let (reads_upstream, reads_gamma) = rowwise_reads(op);
    match check_room(primary, shape.primary_len, Family::Rowwise, Part::Primary) {
        Ok(()) => {},
        Err(refusal) => {
            return Err(refusal);
        },
    }
    if reads_upstream {
        match check_room(upstream, shape.upstream_len, Family::Rowwise, Part::Upstream) {
            Ok(()) => {},
            Err(refusal) => {
                return Err(refusal);
            },
        }
    }
    if reads_gamma {
        match check_room(gamma, shape.gamma_len, Family::Rowwise, Part::Gamma) {
            Ok(()) => {},
            Err(refusal) => {
                return Err(refusal);
            },
        }
    }
    match check_room(out, shape.output_len, Family::Rowwise, Part::Output) {
        Ok(()) => {},
        Err(refusal) => {
            return Err(refusal);
        },
    }
    if out.id() == primary.id() || (reads_upstream && out.id() == upstream.id()) || (reads_gamma
        && out.id() == gamma.id()) {
        return Err(
            Refusal {
                code: ACK_ERR_SHAPE,
                reason: Reason::OutputAliases { family: Family::Rowwise },
            },
        );
    }
    if !d.holds(Slot::Rowwise) {
        return Err(
            Refusal {
                code: ACK_ERR_UNSUPPORTED_OP,
                reason: Reason::Absent { family: Family::Rowwise },
            },
        );
    }
    let mut push: Vec<u8> = Vec::new();
    push.extend_from_slice(block);
    proof {
        assert(push@ =~= block@);
        assert(handles@ =~= seq![handles@[0], handles@[1], handles@[2], handles@[3]]);
    }
    Ok(one_launch(d.launch_on(Slot::Rowwise, &handles, 3, push, shape.groups)))
}

/// An accepted row operation writes no buffer that it reads.
pub proof fn law_rows_are_never_in_place(c: RowCall)
    requires
        c.refusal() is None,
    ensures
        c.launch().access[3].kind == AccessKind::Write,
        c.launch().access[3].buffer != c.launch().access[0].buffer,
        c.op.reads_upstream() ==> c.launch().access[3].buffer != c.launch().access[1].buffer,
        c.op.reads_gamma() ==> c.launch().access[3].buffer != c.launch().access[2].buffer,
{
}

/// The operations are numbered from 0 to 6, and no other word names one; the
/// three backwards alone read the upstream gradient, and the two RMSNorms alone
/// gamma.
pub proof fn law_operations_are_numbered(word: int)
    ensures
        RowOp::decode(word) is Some <==> 0 <= word <= 6,
        RowOp::decode(word) matches Some(op) ==> {
            &&& op is SoftmaxForward <==> word == 0
            &&& op is SoftmaxBackward <==> word == 1
            &&& op is RmsNormForward <==> word == 2
            &&& op is RmsNormBackward <==> word == 3
            &&& op is RmsNormGammaReduction <==> word == 4
            &&& op is LogSoftmaxForward <==> word == 5
            &&& op is LogSoftmaxBackward <==> word == 6
            &&& op.reads_upstream() <==> word == 1 || word == 3 || word == 6
            &&& op.reads_gamma() <==> word == 2 || word == 3
        },
{
}

/// A request is taken up exactly with a block of 16 bytes whose third word names
/// an operation and whose plan was not refused.
pub proof fn law_requests_are_taken_up_with_a_planned_block(
    plan: Option<Seq<u8>>,
    planned: Result<RowShape, RowPlanError>,
)
    ensures
        request_refusal(plan, planned) is None <==> plan is Some && plan->0.len() == 16 && 0
            <= word_at(plan->0, 2) <= 6 && planned is Ok,
        plan is None ==> request_refusal(plan, planned)->0.code == -1,
        plan is Some && plan->0.len() != 16 ==> request_refusal(plan, planned)->0.code == -4,
        plan is Some && plan->0.len() == 16 && !(0 <= word_at(plan->0, 2) <= 6)
            ==> request_refusal(plan, planned)->0.code == -3,
        plan is Some && plan->0.len() == 16 && 0 <= word_at(plan->0, 2) <= 6 && planned is Err
            ==> request_refusal(plan, planned)->0.code == (if planned->Err_0
            is ElementLimitExceeded {
            -4i32
        } else {
            -3i32
        }),
{
}

/// A planned call is accepted exactly when its handles resolve, the buffers that
/// it reads and writes hold the plan's values, the output is no buffer that it
/// reads, and the kernel is there.
pub proof fn law_rows_are_accepted_exactly_when_they_can_run(c: RowCall)
    ensures
        ({
            let d = c.device;
            let s = c.shape;
            let upstream = c.op is SoftmaxBackward || c.op is RmsNormBackward
                || c.op is LogSoftmaxBackward;
            let gamma = c.op is RmsNormForward || c.op is RmsNormBackward;
            let resolved = d.handle_refusal(c.primary) is None && d.handle_refusal(c.upstream)
                is None && d.handle_refusal(c.gamma) is None && d.handle_refusal(c.out) is None;
            let held = 4 * s.primary_len <= d.buffer(c.primary).bytes && (upstream ==> 4
                * s.upstream_len <= d.buffer(c.upstream).bytes) && (gamma ==> 4 * s.gamma_len
                <= d.buffer(c.gamma).bytes) && 4 * s.output_len <= d.buffer(c.out).bytes;
            let out = d.buffer(c.out).id;
            let apart = out != d.buffer(c.primary).id && (upstream ==> out != d.buffer(
                c.upstream,
            ).id) && (gamma ==> out != d.buffer(c.gamma).id);
            &&& c.refusal() is None <==> resolved && held && apart && d.has(Slot::Rowwise)
            &&& resolved && !held ==> c.refusal()->0.code == -4
            &&& resolved && held && !apart ==> c.refusal()->0.code == -3
            &&& resolved && held && apart && !d.has(Slot::Rowwise) ==> c.refusal()->0.code == -11
        }),
{
}

/// An accepted call is one launch: the caller's block is pushed unchanged over
/// the plan's grid, the three inputs are read and the output written.
pub proof fn law_accepted_rows_are_one_launch(c: RowCall)
    requires
        c.refusal() is None,
    ensures
        c.answer() == Ok::<StepModel, Refusal>(StepModel::Run(Seq::empty(), seq![c.launch()])),
        c.launch().slot == Slot::Rowwise,
        c.launch().push == c.block,
        c.launch().groups == c.shape.groups@,
        c.launch().buffers == seq![
            (c.primary % 0x1_0000_0000) as u32,
            (c.upstream % 0x1_0000_0000) as u32,
            (c.gamma % 0x1_0000_0000) as u32,
            (c.out % 0x1_0000_0000) as u32,
        ],
        c.launch().access[0].kind == AccessKind::Read,
        c.launch().access[1].kind == AccessKind::Read,
        c.launch().access[2].kind == AccessKind::Read,
        c.launch().access[3].kind == AccessKind::Write,
{
    assert(c.launch().buffers =~= seq![
        (c.primary % 0x1_0000_0000) as u32,
        (c.upstream % 0x1_0000_0000) as u32,
        (c.gamma % 0x1_0000_0000) as u32,
        (c.out % 0x1_0000_0000) as u32,
    ]);
}

/// Rows are refused for the first buffer that is too small, in the order of the
/// operands, then for an output that is read, and then for a missing kernel.
pub proof fn law_refused_rows_name_the_first_shortage(c: RowCall)
    requires
        c.device.handle_refusal(c.primary) is None,
        c.device.handle_refusal(c.upstream) is None,
        c.device.handle_refusal(c.gamma) is None,
        c.device.handle_refusal(c.out) is None,
    ensures
        ({
            let d = c.device;
            let bad0 = d.buffer(c.primary).bytes / 4 < c.shape.primary_len;
            let bad1 = c.op.reads_upstream() && d.buffer(c.upstream).bytes / 4 < c.shape.upstream_len;
            let bad2 = c.op.reads_gamma() && d.buffer(c.gamma).bytes / 4 < c.shape.gamma_len;
            let bad3 = d.buffer(c.out).bytes / 4 < c.shape.output_len;
            &&& bad0 ==> c.refusal() == Some(
                Refusal {
                    code: -4i32,
                    reason: Reason::TooSmall {
                        family: Family::Rowwise,
                        part: Part::Primary,
                        have: d.buffer(c.primary).bytes / 4,
                        need: c.shape.primary_len as u64,
                    },
                },
            )
            &&& !bad0 && bad1 ==> c.refusal() == Some(
                Refusal {
                    code: -4i32,
                    reason: Reason::TooSmall {
                        family: Family::Rowwise,
                        part: Part::Upstream,
                        have: d.buffer(c.upstream).bytes / 4,
                        need: c.shape.upstream_len as u64,
                    },
                },
            )
            &&& !bad0 && !bad1 && bad2 ==> c.refusal() == Some(
                Refusal {
                    code: -4i32,
                    reason: Reason::TooSmall {
                        family: Family::Rowwise,
                        part: Part::Gamma,
                        have: d.buffer(c.gamma).bytes / 4,
                        need: c.shape.gamma_len as u64,
                    },
                },
            )
            &&& !bad0 && !bad1 && !bad2 && bad3 ==> c.refusal() == Some(
                Refusal {
                    code: -4i32,
                    reason: Reason::TooSmall {
                        family: Family::Rowwise,
                        part: Part::Output,
                        have: d.buffer(c.out).bytes / 4,
                        need: c.shape.output_len as u64,
                    },
                },
            )
            &&& !bad0 && !bad1 && !bad2 && !bad3 && !c.apart() ==> c.refusal() == Some(
                Refusal {
                    code: -3i32,
                    reason: Reason::OutputAliases { family: Family::Rowwise },
                },
            )
            &&& !bad0 && !bad1 && !bad2 && !bad3 && c.apart() && !d.has(Slot::Rowwise) ==> c.refusal() == Some(
                Refusal { code: -11i32, reason: Reason::Absent { family: Family::Rowwise } },
            )
        }),
{
}

/// A block of another length is refused with both lengths, an unknown operation
/// as that, and a refused plan by its error.
pub proof fn law_refused_row_requests_say_why(
    p: Seq<u8>,
    planned: Result<RowShape, RowPlanError>,
)
    requires
        p.len() <= usize::MAX,
    ensures
        request_refusal(None, planned)->0.reason is Unnamed,
        p.len() != 16 ==> request_refusal(Some(p), planned)->0.reason == (Reason::BlockLength {
            family: Family::Rowwise,
            len: p.len() as usize,
            need: 16,
        }),
        p.len() == 16 && word_at(p, 2) > 6 ==> request_refusal(Some(p), planned)->0.reason
            == (Reason::Rowwise { error: RowPlanError::OperationOutOfRange }),
        p.len() == 16 && 0 <= word_at(p, 2) <= 6 && planned is Err ==> request_refusal(
            Some(p),
            planned,
        )->0.reason == (Reason::Rowwise { error: planned->Err_0 }),
{
}

} // verus!
