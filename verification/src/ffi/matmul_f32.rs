//! The FP32 product entry: its plan block against the buffers' real capacities.

use super::device::{
    answer, block_of, device_refusal, found_model, one_launch, open_device, run_one, AckDevice,
    DeviceModel, LaunchModel, Slot, Step, StepModel,
};
use super::reason::{first, unless, Family, Reason, Refusal};
use super::{ACK_ERR_NULL, ACK_ERR_SHAPE, ACK_ERR_SIZE, ACK_ERR_UNSUPPORTED_OP};
use crate::batch::AccessKind;
use crate::context::Buffer;
use crate::matmul_ops::{
    law_push_block_holds_the_product, MatmulKind, MatmulModel, MatmulPlan, MatmulPlanError,
    MatrixModel, MatrixView, PUSH_BYTES,
};
use crate::words::{lemma_bytes_round_trip, read_word, word_at, words_bytes};
use vstd::prelude::*;

verus! {

/// Refuse a request before any device is looked up.
pub open spec fn request_refusal(kind: u32, plan: Option<Seq<u8>>) -> Option<Refusal> {
    match plan {
        None => Some(Refusal { code: ACK_ERR_NULL, reason: Reason::Unnamed }),
        Some(p) => if p.len() != PUSH_BYTES {
            Some(
                Refusal {
                    code: ACK_ERR_SIZE,
                    reason: Reason::BlockLength {
                        family: Family::Matmul,
                        len: p.len() as usize,
                        need: PUSH_BYTES,
                    },
                },
            )
        } else {
            unless(
                MatmulKind::decode(kind) is Some,
                ACK_ERR_SHAPE,
                Reason::MatmulKind { error: MatmulPlanError::OperationOutOfRange },
            )
        },
    }
}

/// An FP32 product's request on a device's buffers.
pub ghost struct MatmulCall {
    pub device: DeviceModel,
    pub a: u64,
    pub b: u64,
    pub c: u64,
    pub kind: MatmulKind,
    pub plan: Seq<u8>,
}

impl MatmulCall {
    /// The view of a buffer that four words of the block describe.
    pub open spec fn view(self, rows: int, cols: int, at: int, handle: u64) -> MatrixModel {
        MatrixModel {
            batch: word_at(self.plan, 0),
            rows,
            cols,
            offset: word_at(self.plan, at),
            batch_stride: word_at(self.plan, at + 1),
            row_stride: word_at(self.plan, at + 2),
            col_stride: word_at(self.plan, at + 3),
            capacity: (self.device.buffer(handle).bytes / 4) as int,
        }
    }

    /// The product that the block describes.
    pub open spec fn product(self) -> MatmulModel {
        let m = word_at(self.plan, 1);
        let n = word_at(self.plan, 2);
        let k = word_at(self.plan, 3);
        MatmulModel {
            kind: self.kind,
            a: self.view(m, k, 4, self.a),
            b: self.view(k, n, 8, self.b),
            output: self.view(m, n, 12, self.c),
        }
    }

    /// Why the plan is refused, if it is: a view first, then the product.
    pub open spec fn fault(self) -> Option<MatmulPlanError> {
        let p = self.product();
        if p.a.refusal() is Some {
            p.a.refusal()
        } else if p.b.refusal() is Some {
            p.b.refusal()
        } else if p.output.refusal() is Some {
            p.output.refusal()
        } else {
            p.refusal()
        }
    }

    /// The output is neither operand's buffer.
    pub open spec fn apart(self) -> bool {
        let d = self.device;
        d.buffer(self.c).id != d.buffer(self.a).id && d.buffer(self.c).id != d.buffer(self.b).id
    }

    /// The kernel that the kind names.
    pub open spec fn slot(self) -> Slot {
        if self.kind.plain() {
            Slot::MatmulF32V2
        } else {
            Slot::MatmulF32
        }
    }

    /// The refusal of the call, if it is refused.
    pub open spec fn refusal(self) -> Option<Refusal> {
        let d = self.device;
        first(
            d.three_refused(self.a, self.b, self.c),
            first(
                unless(self.apart(), ACK_ERR_SHAPE, Reason::MatmulShared),
                first(
                    match self.fault() {
                        Some(error) => Some(
                            Refusal { code: plan_code(error), reason: Reason::Matmul { error } },
                        ),
                        None => None,
                    },
                    unless(
                        d.has(self.slot()),
                        ACK_ERR_UNSUPPORTED_OP,
                        Reason::Absent { family: Family::Matmul },
                    ),
                ),
            ),
        )
    }

    pub open spec fn launch(self) -> LaunchModel {
        self.device.launch(
            self.slot(),
            seq![self.a, self.b, self.c],
            2,
            words_bytes(self.product().push_words()),
            self.product().groups(),
        )
    }

    pub open spec fn answer(self) -> Result<StepModel, Refusal> {
        match self.refusal() {
            Some(refusal) => Err(refusal),
            None => Ok(run_one(self.launch())),
        }
    }
}

/// The code a refused plan is returned as.
pub open spec fn plan_code(err: MatmulPlanError) -> i32 {
    if err is CapacityTooSmall {
        ACK_ERR_SIZE
    } else {
        ACK_ERR_SHAPE
    }
}

fn matmul_plan_code(err: MatmulPlanError) -> (r: i32)
    ensures
        r == plan_code(err),
{
    match err {
        MatmulPlanError::CapacityTooSmall => ACK_ERR_SIZE,
        _ => ACK_ERR_SHAPE,
    }
}

/// The view that four words of a block describe.
fn read_view(block: &[u8], rows: u32, cols: u32, at: usize, bytes: u64) -> (r: Result<
    MatrixView,
    MatmulPlanError,
>)
    requires
        block.len() == PUSH_BYTES,
        at <= 12,
    ensures
        ({
            let asked = MatrixModel {
                batch: word_at(block@, 0),
                rows: rows as int,
                cols: cols as int,
                offset: word_at(block@, at as int),
                batch_stride: word_at(block@, at + 1),
                row_stride: word_at(block@, at + 2),
                col_stride: word_at(block@, at + 3),
                capacity: (bytes / 4) as int,
            };
            match asked.refusal() {
                Some(e) => r is Err && r->Err_0 == e,
                None => r is Ok && r->Ok_0@ == asked,
            }
        }),
{
    MatrixView::new(
        read_word(block, 0),
        rows,
        cols,
        read_word(block, at) as u64,
        read_word(block, at + 1) as u64,
        read_word(block, at + 2) as u64,
        read_word(block, at + 3) as u64,
        bytes / 4,
    )
}

/// The plan that a block describes on buffers of so many bytes.
fn read_plan(block: &[u8], kind: MatmulKind, a: u64, b: u64, c: u64, Ghost(call): Ghost<
    MatmulCall,
>) -> (r: Result<MatmulPlan, MatmulPlanError>)
    requires
        block.len() == PUSH_BYTES,
        call.plan == block@,
        call.kind == kind,
        call.device.buffer(call.a).bytes == a,
        call.device.buffer(call.b).bytes == b,
        call.device.buffer(call.c).bytes == c,
    ensures
        match call.fault() {
            Some(error) => r is Err && r->Err_0 == error,
            None => r is Ok && r->Ok_0@ == call.product(),
        },
{
    let m: u32 = read_word(block, 1);
    let n: u32 = read_word(block, 2);
    let k: u32 = read_word(block, 3);
    let left = match read_view(block, m, k, 4, a) {
        Ok(v) => v,
        Err(e) => {
            return Err(e);
        },
    };
    let right = match read_view(block, k, n, 8, b) {
        Ok(v) => v,
        Err(e) => {
            return Err(e);
        },
    };
    let output = match read_view(block, m, n, 12, c) {
        Ok(v) => v,
        Err(e) => {
            return Err(e);
        },
    };
    MatmulPlan::new(kind, left, right, output)
}

/// `C = A . B` in FP32, one product or a batch of them. The block is validated
/// against the buffers' real capacities, and the output must be a buffer of its
/// own.
pub fn ack_matmul_f32(
    dev: u64,
    found: Option<&AckDevice>,
    handles: [u64; 3],
    kind: u32,
    plan: Option<&[u8]>,
) -> (r: Result<Step, Refusal>)
    requires
        found matches Some(d) ==> d.wf(),
    ensures
        match first(
            request_refusal(kind, block_of(plan)),
            device_refusal(dev, found_model(found)),
        ) {
            Some(refusal) => answer(r) == Err::<StepModel, Refusal>(refusal),
            None => answer(r) == (MatmulCall {
                device: found_model(found)->0,
                a: handles@[0],
                b: handles@[1],
                c: handles@[2],
                kind: MatmulKind::decode(kind)->0,
                plan: plan->0@,
            }).answer(),
        },
{
    let block: &[u8] = match plan {
        None => {
            return Err(Refusal { code: ACK_ERR_NULL, reason: Reason::Unnamed });
        },
        Some(p) => p,
    };
    if block.len() != PUSH_BYTES {
        return Err(
            Refusal {
                code: ACK_ERR_SIZE,
                reason: Reason::BlockLength {
                    family: Family::Matmul,
                    len: block.len(),
                    need: PUSH_BYTES,
                },
            },
        );
    }
    let kind = match MatmulKind::try_from(kind) {
        Ok(k) => k,
        Err(error) => {
            return Err(Refusal { code: ACK_ERR_SHAPE, reason: Reason::MatmulKind { error } });
        },
    };
    let d: &AckDevice = match open_device(dev, found) {
        Ok(d) => d,
        Err(refusal) => {
            return Err(refusal);
        },
    };
    let ghost call = MatmulCall {
        device: d@,
        a: handles@[0],
        b: handles@[1],
        c: handles@[2],
        kind,
        plan: block@,
    };
    let a: &Buffer = match d.buffer_of(handles[0]) {
        Ok(b) => b,
        Err(refusal) => {
            return Err(refusal);
        },
    };
    let b: &Buffer = match d.buffer_of(handles[1]) {
        Ok(b) => b,
        Err(refusal) => {
            return Err(refusal);
        },
    };
    let c: &Buffer = match d.buffer_of(handles[2]) {
        Ok(b) => b,
        Err(refusal) => {
            return Err(refusal);
        },
    };
    if c.id() == a.id() || c.id() == b.id() {
        return Err(Refusal { code: ACK_ERR_SHAPE, reason: Reason::MatmulShared });
    }
    let planned = match read_plan(block, kind, a.size(), b.size(), c.size(), Ghost(call)) {
        Ok(p) => p,
        Err(error) => {
            return Err(
                Refusal { code: matmul_plan_code(error), reason: Reason::Matmul { error } },
            );
        },
    };
    let slot = if kind.is_plain() {
        Slot::MatmulF32V2
    } else {
        Slot::MatmulF32
    };
    if !d.holds(slot) {
        return Err(
            Refusal {
                code: ACK_ERR_UNSUPPORTED_OP,
                reason: Reason::Absent { family: Family::Matmul },
            },
        );
    }
    let mut push: Vec<u8> = Vec::new();
    let image = planned.push_constants();
    push.extend_from_slice(&image);
    proof {
        assert(push@ =~= image@);
        assert(handles@ =~= seq![call.a, call.b, call.c]);
    }
    Ok(one_launch(d.launch_on(slot, &handles, 2, push, planned.dispatch_groups())))
}

/// Every element that an accepted product reads or writes lies inside its
/// buffer.
pub proof fn law_accepted_product_stays_inside_its_buffers(c: MatmulCall)
    requires
        c.refusal() is None,
    ensures
        c.product().a.required() * 4 <= c.device.buffer(c.a).bytes,
        c.product().b.required() * 4 <= c.device.buffer(c.b).bytes,
        c.product().output.required() * 4 <= c.device.buffer(c.c).bytes,
{
}

/// The block that a call was made with decodes to a product whose own block is
/// the same, byte for byte: nothing is lost or moved between the caller's words
/// and the kernel's.
pub proof fn law_accepted_block_is_pushed_unchanged(c: MatmulCall)
    requires
        c.plan.len() == 64,
        c.refusal() is None,
    ensures
        c.launch().push.len() == 64,
        forall|i: int| 0 <= i < 16 ==> #[trigger] word_at(c.launch().push, i) == word_at(c.plan, i),
        c.launch().push == c.plan,
{
    let p = c.product();
    let push = c.launch().push;
    assert(c.fault() is None);
    assert forall|i: int| 0 <= i < 16 implies 0 <= #[trigger] word_at(c.plan, i) <= u32::MAX by {
        lemma_bytes_round_trip(c.plan.subrange(4 * i, 4 * i + 4));
    }
    assert(word_at(c.plan, 4) >= 0 && word_at(c.plan, 5) >= 0 && word_at(c.plan, 6) >= 0 && word_at(
        c.plan,
        7,
    ) >= 0);
    assert(word_at(c.plan, 8) >= 0 && word_at(c.plan, 9) >= 0 && word_at(c.plan, 10) >= 0
        && word_at(c.plan, 11) >= 0);
    assert(word_at(c.plan, 12) >= 0 && word_at(c.plan, 13) >= 0 && word_at(c.plan, 14) >= 0
        && word_at(c.plan, 15) >= 0);
    assert(p.valid());
    law_push_block_holds_the_product(p);
    assert forall|i: int| 0 <= i < 16 implies #[trigger] word_at(push, i) == word_at(c.plan, i) by {
        assert(i == 0 || i == 1 || i == 2 || i == 3 || i == 4 || i == 5 || i == 6 || i == 7 || i == 8
            || i == 9 || i == 10 || i == 11 || i == 12 || i == 13 || i == 14 || i == 15);
    }
    assert forall|k: int| 0 <= k < 64 implies push[k] == c.plan[k] by {
        let i = k / 4;
        let (x, y) = (push.subrange(4 * i, 4 * i + 4), c.plan.subrange(4 * i, 4 * i + 4));
        lemma_bytes_round_trip(x);
        lemma_bytes_round_trip(y);
        assert(word_at(push, i) == word_at(c.plan, i));
        assert(x == y);
        assert(push[k] == x[k - 4 * i] && c.plan[k] == y[k - 4 * i]);
    }
    assert(push =~= c.plan);
}

/// The block of an admitted product decodes, on buffers of the capacities that
/// the product was planned for, to that product.
pub proof fn law_block_decodes_to_its_product(c: MatmulCall, p: MatmulModel)
    requires
        p.valid(),
        c.plan == words_bytes(p.push_words()),
        c.kind == p.kind,
        c.device.buffer(c.a).bytes / 4 == p.a.capacity,
        c.device.buffer(c.b).bytes / 4 == p.b.capacity,
        c.device.buffer(c.c).bytes / 4 == p.output.capacity,
    ensures
        c.view(p.a.rows, p.a.cols, 4, c.a) == p.a,
        c.view(p.b.rows, p.b.cols, 8, c.b) == p.b,
        c.view(p.output.rows, p.output.cols, 12, c.c) == p.output,
        c.product() == p,
        c.fault() is None,
{
    law_push_block_holds_the_product(p);
}

/// An accepted call is one launch of the kernel of its kind, on A and B read and
/// C written, with the caller's extents over the output's tiles.
pub proof fn law_accepted_call_is_one_launch(c: MatmulCall)
    requires
        c.plan.len() == 64,
        c.refusal() is None,
    ensures
        c.answer() matches Ok(StepModel::Run(images, l)) && images.len() == 0 && l.len() == 1 && {
            &&& c.kind is Mm || c.kind is Bmm ==> l[0].slot == Slot::MatmulF32
            &&& c.kind is MmPlain || c.kind is BmmPlain ==> l[0].slot == Slot::MatmulF32V2
            &&& l[0].buffers == seq![
                (c.a % 0x1_0000_0000) as u32,
                (c.b % 0x1_0000_0000) as u32,
                (c.c % 0x1_0000_0000) as u32,
            ]
            &&& l[0].access[0].kind == AccessKind::Read
            &&& l[0].access[1].kind == AccessKind::Read
            &&& l[0].access[2].kind == AccessKind::Write
            &&& l[0].push == c.plan
            &&& l[0].groups == c.product().groups()
            &&& l[0].groups[2] == word_at(c.plan, 0)
        },
        c.device.buffer(c.c).id != c.device.buffer(c.a).id,
        c.device.buffer(c.c).id != c.device.buffer(c.b).id,
{
    law_accepted_block_is_pushed_unchanged(c);
    assert(c.fault() is None);
    lemma_bytes_round_trip(c.plan.subrange(0, 4));
    assert(c.launch().buffers =~= seq![
        (c.a % 0x1_0000_0000) as u32,
        (c.b % 0x1_0000_0000) as u32,
        (c.c % 0x1_0000_0000) as u32,
    ]);
}

/// A request is taken up exactly with a block of 64 bytes and a kind from 0 to 3.
pub proof fn law_requests_are_taken_up_with_a_block_and_a_kind(kind: u32, plan: Option<Seq<u8>>)
    ensures
        request_refusal(kind, plan) is None <==> plan is Some && plan->0.len() == 64 && kind <= 3,
        plan is None ==> request_refusal(kind, plan)->0.code == -1,
        plan is Some && plan->0.len() != 64 ==> request_refusal(kind, plan)->0.code == -4,
        plan is Some && plan->0.len() == 64 && kind > 3 ==> request_refusal(kind, plan)->0.code
            == -3,
{
}

/// A call on resolved handles is refused as a shape where the output is an
/// operand's buffer, as a size where a buffer is too small for its view, and as a
/// shape for every other fault of its plan; what is left is a missing kernel.
pub proof fn law_refused_calls_say_why(c: MatmulCall)
    requires
        c.device.handle_refusal(c.a) is None,
        c.device.handle_refusal(c.b) is None,
        c.device.handle_refusal(c.c) is None,
    ensures
        ({
            let d = c.device;
            let shared = d.buffer(c.c).id == d.buffer(c.a).id || d.buffer(c.c).id == d.buffer(
                c.b,
            ).id;
            &&& shared ==> c.refusal() is Some && c.refusal()->0.code == -3
            &&& !shared && c.fault() == Some(MatmulPlanError::CapacityTooSmall) ==> c.refusal()
                is Some && c.refusal()->0.code == -4
            &&& !shared && c.fault() is Some && c.fault() != Some(MatmulPlanError::CapacityTooSmall)
                ==> c.refusal() is Some && c.refusal()->0.code == -3
            &&& !shared && c.fault() is None && !d.has(c.slot()) ==> c.refusal() is Some
                && c.refusal()->0.code == -11
            &&& !shared && c.fault() is None && d.has(c.slot()) ==> c.refusal() is None
        }),
{
}

/// A refused call says why: the block's length, the kind, an output that is an
/// input, what the plan refuses, or a missing kernel.
pub proof fn law_refused_calls_name_the_reason(kind: u32, p: Seq<u8>, c: MatmulCall)
    requires
        p.len() <= usize::MAX,
    ensures
        request_refusal(kind, None)->0.reason is Unnamed,
        p.len() != 64 ==> request_refusal(kind, Some(p))->0.reason == (Reason::BlockLength {
            family: Family::Matmul,
            len: p.len() as usize,
            need: 64,
        }),
        p.len() == 64 && kind > 3 ==> request_refusal(kind, Some(p))->0.reason
            == (Reason::MatmulKind { error: MatmulPlanError::OperationOutOfRange }),
        c.device.three_refused(c.a, c.b, c.c) is None ==> {
            &&& !c.apart() ==> c.refusal()->0.reason is MatmulShared
            &&& c.apart() && c.fault() is Some ==> c.refusal()->0.reason == (Reason::Matmul {
                error: c.fault()->0,
            })
            &&& c.apart() && c.fault() is None && c.refusal() is Some ==> c.refusal()->0.reason
                == (Reason::Absent { family: Family::Matmul })
        },
{
}

} // verus!
