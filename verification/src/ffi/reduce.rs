//! The reduction entry: its request block, the storage modules it needs, and
//! the one or two passes it records.

use super::device::{
    answer, block_of, device_refusal, found_model, launches, open_device, AckDevice, DeviceModel,
    Image, ImageModel, Launch, LaunchModel, Slot, Step, StepModel,
};
use super::reason::{first, unless, Family, Reason, Refusal, RequestFault};
use super::{ACK_ERR_NULL, ACK_ERR_SHAPE, ACK_ERR_SIZE, ACK_ERR_UNSUPPORTED_OP};
use crate::batch::AccessKind;
use crate::context::Buffer;
use crate::reduce_ops::{
    described, element_bytes, is_reduced, law_first_pass_holds_the_request,
    law_operations_are_numbered, law_second_pass_combines_the_partial_results, view_refusal, Finish,
    PassModel, ReduceKernel, ReduceOp, ReducePass, ReducePlan, ReducePlanError, ReduceRequestModel,
    ReduceView, ReduceViewModel, FLAG_IN_BF16, FLAG_OUT_BF16, MAX_RANK, PUSH_BYTES, REQUEST_BYTES,
    STORAGE_FLAGS,
};
use crate::words::{read_word, word_at};
use vstd::prelude::*;

verus! {

/// The request that a reduction's block spells: the kernel's own push layout
/// with the two words that the plan derives left zero.
#[derive(Clone, Copy, Debug)]
pub struct ReduceRequest {
    pub op: ReduceOp,
    pub finish: Finish,
    pub ndim: usize,
    pub reduced_mask: u32,
    pub shape: [u32; MAX_RANK],
    pub stride: [u32; MAX_RANK],
    pub offset: u32,
    pub scale: u32,
}

/// What a `ReduceRequest` asks for.
#[verifier::ext_equal]
pub ghost struct RequestModel {
    pub op: ReduceOp,
    pub finish: Finish,
    pub view: ReduceViewModel,
    pub mask: u32,
    pub scale: u32,
}

impl View for ReduceRequest {
    type V = RequestModel;

    open spec fn view(&self) -> RequestModel {
        RequestModel {
            op: self.op,
            finish: self.finish,
            view: ReduceViewModel {
                shape: self.shape@,
                stride: self.stride@,
                ndim: self.ndim as nat,
                offset: self.offset,
            },
            mask: self.reduced_mask,
            scale: self.scale,
        }
    }
}

/// A word of the block.
pub open spec fn word(block: Seq<u8>, i: int) -> u32 {
    word_at(block, i) as u32
}

/// The view that a block describes.
pub open spec fn block_view(block: Seq<u8>) -> ReduceViewModel {
    ReduceViewModel {
        shape: Seq::new(6, |d: int| word(block, 4 + d)),
        stride: Seq::new(6, |d: int| word(block, 10 + d)),
        ndim: word(block, 2) as nat,
        offset: word(block, 16),
    }
}

/// Every dimension beyond the rank has extent 1 and stride 0.
pub open spec fn padding_is_plain(v: ReduceViewModel) -> bool {
    &&& forall|d: int| v.ndim <= d < 6 ==> #[trigger] v.shape[d] == 1
    &&& forall|d: int| v.ndim <= d < 6 ==> #[trigger] v.stride[d] == 0
}

/// What is wrong with a block, if anything. The reduced elements must be few
/// enough for the kernel's 32-bit counter, even where broadcast dimensions keep
/// the addresses small.
pub open spec fn block_fault(block: Seq<u8>) -> Option<RequestFault> {
    let v = block_view(block);
    if word(block, 0) > 2 {
        Some(RequestFault::Operation)
    } else if word(block, 1) > 2 {
        Some(RequestFault::Finish)
    } else if v.ndim == 0 || v.ndim > MAX_RANK {
        Some(RequestFault::Rank)
    } else if v.product(word(block, 3), true, v.ndim) > u32::MAX {
        Some(RequestFault::ReducedCount)
    } else if word(block, 17) != 0 || word(block, 18) != 0 {
        Some(RequestFault::ReservedWord)
    } else if !padding_is_plain(v) {
        Some(RequestFault::Padding)
    } else {
        None
    }
}

/// What a faultless block asks for.
pub open spec fn block_request(block: Seq<u8>) -> RequestModel {
    RequestModel {
        op: if word(block, 0) == 0 {
            ReduceOp::Sum
        } else if word(block, 0) == 1 {
            ReduceOp::Amax
        } else {
            ReduceOp::SumOfSquares
        },
        finish: if word(block, 1) == 0 {
            Finish::NoFinish
        } else if word(block, 1) == 1 {
            Finish::Scale
        } else {
            Finish::Sqrt
        },
        view: block_view(block),
        mask: word(block, 3),
        scale: word(block, 19),
    }
}

proof fn lemma_word_fits(block: Seq<u8>, i: int)
    requires
        0 <= i,
        4 * i + 4 <= block.len(),
    ensures
        word(block, i) == word_at(block, i),
{
    let four = block.subrange(4 * i, 4 * i + 4);
    crate::words::lemma_bytes_round_trip(four);
}

/// A word of the block.
fn block_word(block: &[u8], i: usize) -> (w: u32)
    requires
        i < 20,
        block.len() >= PUSH_BYTES,
    ensures
        w == word(block@, i as int),
{
    proof {
        lemma_word_fits(block@, i as int);
    }
    read_word(block, i)
}

/// The product of the reduced extents, capped.
fn reduced_product(block: &[u8], mask: u32, ndim: usize) -> (r: u64)
    requires
        block.len() >= PUSH_BYTES,
        ndim <= MAX_RANK,
    ensures
        r <= u32::MAX ==> r == block_view(block@).product(mask, true, ndim as nat),
        r > u32::MAX ==> block_view(block@).product(mask, true, ndim as nat) > u32::MAX,
{
    let ghost v = block_view(block@);
    let mut reduced: u64 = 1;
    let mut d: usize = 0;
    while d < ndim
        invariant
            block.len() >= PUSH_BYTES,
            v == block_view(block@),
            d <= ndim <= MAX_RANK,
            reduced < u64::MAX ==> reduced == v.product(mask, true, d as nat),
            reduced == u64::MAX ==> v.product(mask, true, d as nat) >= u64::MAX,
        decreases ndim - d,
    {
        if is_reduced(mask, d) {
            let extent: u64 = block_word(block, 4 + d) as u64;
            let ghost p = v.product(mask, true, d as nat);
            proof {
                assert(v.shape[d as int] == extent);
                if extent == 0 {
                    assert(p * extent == 0) by (nonlinear_arith)
                        requires
                            extent == 0,
                    ;
                } else {
                    assert(p * extent >= p && reduced * extent >= reduced) by (nonlinear_arith)
                        requires
                            extent >= 1,
                            p >= 0,
                            reduced >= 0,
                            p >= 0,
                    ;
                    assert(p >= reduced ==> p * extent >= reduced * extent) by (nonlinear_arith)
                        requires
                            extent >= 1,
                    ;
                }
            }
            reduced = match reduced.checked_mul(extent) {
                Some(p) => p,
                None => u64::MAX,
            };
        }
        d += 1;
    }
    reduced
}

impl ReduceRequest {
    /// Read a request block. The words for the splits and their length are the
    /// plan's to derive: a caller that sets them is refused.
    pub fn decode(block: &[u8; PUSH_BYTES]) -> (r: Result<Self, RequestFault>)
        ensures
            match block_fault(block@) {
                Some(fault) => r is Err && r->Err_0 == fault,
                None => r is Ok && r->Ok_0@ == block_request(block@) && r->Ok_0.ndim <= MAX_RANK,
            },
    {
        let op = match block_word(block, 0) {
            0 => ReduceOp::Sum,
            1 => ReduceOp::Amax,
            2 => ReduceOp::SumOfSquares,
            _ => {
                return Err(RequestFault::Operation);
            },
        };
        let finish = match block_word(block, 1) {
            0 => Finish::NoFinish,
            1 => Finish::Scale,
            2 => Finish::Sqrt,
            _ => {
                return Err(RequestFault::Finish);
            },
        };
        let rank: u32 = block_word(block, 2);
        if rank == 0 || rank > MAX_RANK as u32 {
            return Err(RequestFault::Rank);
        }
        let ndim: usize = rank as usize;
        let mask: u32 = block_word(block, 3);
        if reduced_product(block, mask, ndim) > u32::MAX as u64 {
            return Err(RequestFault::ReducedCount);
        }
        if block_word(block, 17) != 0 || block_word(block, 18) != 0 {
            return Err(RequestFault::ReservedWord);
        }
        let ghost v = block_view(block@);
        let mut shape: [u32; MAX_RANK] = [1; MAX_RANK];
        let mut stride: [u32; MAX_RANK] = [0; MAX_RANK];
        let mut d: usize = 0;
        while d < MAX_RANK
            invariant
                d <= MAX_RANK,
                v == block_view(block@),
                v.ndim == ndim,
                block_fault(block@) is None || block_fault(block@) == Some(RequestFault::Padding),
                block_fault(block@) is None <==> padding_is_plain(v),
                forall|e: int| 0 <= e < d ==> #[trigger] shape@[e] == v.shape[e],
                forall|e: int| 0 <= e < d ==> #[trigger] stride@[e] == v.stride[e],
                forall|e: int| ndim <= e < d ==> #[trigger] v.shape[e] == 1,
                forall|e: int| ndim <= e < d ==> #[trigger] v.stride[e] == 0,
            decreases MAX_RANK - d,
        {
            let extent: u32 = block_word(block, 4 + d);
            let step: u32 = block_word(block, 10 + d);
            proof {
                assert(v.shape[d as int] == extent);
                assert(v.stride[d as int] == step);
            }
            shape[d] = extent;
            stride[d] = step;
            if d >= ndim && (extent != 1 || step != 0) {
                return Err(RequestFault::Padding);
            }
            d += 1;
        }
        proof {
            assert(shape@ =~= v.shape);
            assert(stride@ =~= v.stride);
        }
        Ok(
            ReduceRequest {
                op,
                finish,
                ndim,
                reduced_mask: mask,
                shape,
                stride,
                offset: block_word(block, 16),
                scale: block_word(block, 19),
            },
        )
    }
}

/// The code a refused plan is returned as.
pub open spec fn plan_code(err: ReducePlanError) -> i32 {
    match err {
        ReducePlanError::AddressOutOfRange => ACK_ERR_SIZE,
        ReducePlanError::CapacityTooSmall => ACK_ERR_SIZE,
        _ => ACK_ERR_SHAPE,
    }
}

/// The code a refused plan is returned as.
pub fn reduce_plan_code(err: ReducePlanError) -> (r: i32)
    ensures
        r == plan_code(err),
{
    match err {
        ReducePlanError::AddressOutOfRange | ReducePlanError::CapacityTooSmall => ACK_ERR_SIZE,
        _ => ACK_ERR_SHAPE,
    }
}

/// The storage flags of a request: the word behind the block, where there is
/// one.
pub open spec fn storage_word(plan: Seq<u8>) -> u32 {
    if plan.len() == REQUEST_BYTES {
        word(plan, 20)
    } else {
        0
    }
}

/// Refuse a request before any device is looked up.
pub open spec fn request_refusal(plan: Option<Seq<u8>>) -> Option<Refusal> {
    match plan {
        None => Some(Refusal { code: ACK_ERR_NULL, reason: Reason::Unnamed }),
        Some(p) => if p.len() != PUSH_BYTES && p.len() != REQUEST_BYTES {
            Some(
                Refusal {
                    code: ACK_ERR_SIZE,
                    reason: Reason::ReduceLength { len: p.len() as usize },
                },
            )
        } else if storage_word(p) & !3u32 != 0 {
            Some(
                Refusal {
                    code: ACK_ERR_SHAPE,
                    reason: Reason::ReduceRequest { fault: RequestFault::StorageFlags },
                },
            )
        } else {
            match block_fault(p.take(80)) {
                Some(fault) => Some(
                    Refusal { code: ACK_ERR_SHAPE, reason: Reason::ReduceRequest { fault } },
                ),
                None => None,
            }
        },
    }
}

/// The first storage module that a request with storage flags waits for: all
/// six are built before the first such reduction.
pub open spec fn missing_module(d: DeviceModel, storage: u32) -> Option<Slot> {
    if storage == 0 {
        None
    } else if !d.has(Slot::Reduce(1)) {
        Some(Slot::Reduce(1))
    } else if !d.has(Slot::ReduceV2(1)) {
        Some(Slot::ReduceV2(1))
    } else if !d.has(Slot::Reduce(2)) {
        Some(Slot::Reduce(2))
    } else if !d.has(Slot::ReduceV2(2)) {
        Some(Slot::ReduceV2(2))
    } else if !d.has(Slot::Reduce(3)) {
        Some(Slot::Reduce(3))
    } else if !d.has(Slot::ReduceV2(3)) {
        Some(Slot::ReduceV2(3))
    } else {
        None
    }
}

/// The bytes of an element under a storage bit.
pub open spec fn stored_bytes(storage: u32, bit: u32) -> u64 {
    if storage & bit != 0 {
        2
    } else {
        4
    }
}

/// A reduction on a device.
pub ghost struct ReduceCall {
    pub device: DeviceModel,
    pub x: u64,
    pub partials: u64,
    pub out: u64,
    pub plan: Seq<u8>,
}

impl ReduceCall {
    pub open spec fn storage(self) -> u32 {
        storage_word(self.plan)
    }

    pub open spec fn asked(self) -> RequestModel {
        block_request(self.plan.take(80))
    }

    /// The request against the input's real capacity.
    pub open spec fn request(self) -> ReduceRequestModel {
        let asked = self.asked();
        ReduceRequestModel {
            view: asked.view,
            mask: asked.mask,
            op: asked.op,
            finish: asked.finish,
            scale: asked.scale,
            capacity: self.device.buffer(self.x).bytes / stored_bytes(
                self.storage(),
                FLAG_IN_BF16,
            ),
            allow_v2: !self.device.reduce_v1_only,
            storage: self.storage(),
        }
    }

    /// Elements that the output holds.
    pub open spec fn room(self) -> u64 {
        self.device.buffer(self.out).bytes / stored_bytes(self.storage(), FLAG_OUT_BF16)
    }

    /// Refuse a handle; the partials' may be null.
    pub open spec fn handles(self) -> Option<Refusal> {
        first(
            self.device.handle_refusal(self.x),
            first(
                if self.partials == 0 {
                    None
                } else {
                    self.device.handle_refusal(self.partials)
                },
                self.device.handle_refusal(self.out),
            ),
        )
    }

    /// Refuse a view or a plan by its name.
    pub open spec fn planning(self) -> Option<Refusal> {
        let v = self.asked().view;
        match view_refusal(v.shape.take(v.ndim as int), v.stride.take(v.ndim as int), v.offset) {
            Some(error) => Some(
                Refusal { code: plan_code(error), reason: Reason::Reduce { error } },
            ),
            None => match self.request().refusal() {
                Some(error) => Some(
                    Refusal { code: plan_code(error), reason: Reason::Reduce { error } },
                ),
                None => None,
            },
        }
    }

    /// Refuse an output that is the input's buffer or too small.
    pub open spec fn output(self) -> Option<Refusal> {
        let d = self.device;
        first(
            unless(
                d.buffer(self.out).id != d.buffer(self.x).id,
                ACK_ERR_SHAPE,
                Reason::OutputAliases { family: Family::Reduce },
            ),
            unless(
                self.room() >= self.request().kept(),
                ACK_ERR_SIZE,
                Reason::ReduceOutput { have: self.room(), need: self.request().kept() as usize },
            ),
        )
    }

    /// Refuse the partials of a reduction in two passes.
    pub open spec fn scratch(self) -> Option<Refusal> {
        let d = self.device;
        let p = d.buffer(self.partials);
        let need = self.request().first().output_len;
        if self.request().second() is None {
            None
        } else if self.partials == 0 {
            Some(
                Refusal {
                    code: ACK_ERR_NULL,
                    reason: Reason::NoPartials { splits: self.request().splits() as u32 },
                },
            )
        } else {
            first(
                unless(
                    p.id != d.buffer(self.x).id && p.id != d.buffer(self.out).id,
                    ACK_ERR_SHAPE,
                    Reason::PartialsAlias,
                ),
                unless(
                    p.bytes / 4 >= need,
                    ACK_ERR_SIZE,
                    Reason::ReducePartials { have: p.bytes / 4, need: need as usize },
                ),
            )
        }
    }

    /// Refuse a device without the two kernels.
    pub open spec fn kernels(self) -> Option<Refusal> {
        first(
            unless(
                self.device.has(Slot::Reduce(0)),
                ACK_ERR_UNSUPPORTED_OP,
                Reason::Absent { family: Family::Reduce },
            ),
            unless(
                self.device.has(Slot::ReduceV2(0)),
                ACK_ERR_UNSUPPORTED_OP,
                Reason::ReduceV2Absent,
            ),
        )
    }

    /// The refusal of the call, if it is refused.
    pub open spec fn refusal(self) -> Option<Refusal> {
        first(
            self.handles(),
            first(
                self.planning(),
                first(self.output(), first(self.scratch(), self.kernels())),
            ),
        )
    }

    /// The buffer the first pass writes.
    pub open spec fn target(self) -> u64 {
        if self.request().second() is None {
            self.out
        } else {
            self.partials
        }
    }

    /// One pass, from one buffer to another.
    pub open spec fn pass(self, p: PassModel, from: u64, to: u64) -> LaunchModel {
        self.device.launch(pass_slot(p), seq![from, to], 1, p.push, p.groups)
    }

    /// What is recorded: the first pass, and the second over its partials.
    pub open spec fn passes(self) -> Seq<LaunchModel> {
        let one = self.pass(self.request().first(), self.x, self.target());
        match self.request().second() {
            None => seq![one],
            Some(p) => seq![one, self.pass(p, self.partials, self.out)],
        }
    }

    pub open spec fn answer(self) -> Result<StepModel, Refusal> {
        match missing_module(self.device, self.storage()) {
            Some(slot) => Ok(StepModel::Build(slot)),
            None => match self.refusal() {
                Some(refusal) => Err(refusal),
                None => Ok(StepModel::Run(Seq::empty(), self.passes())),
            },
        }
    }
}

/// The module a pass runs: its kernel, by its own storage bits.
pub open spec fn pass_slot(p: PassModel) -> Slot {
    match p.kernel {
        ReduceKernel::V1 => Slot::Reduce(p.storage),
        ReduceKernel::V2 => Slot::ReduceV2(p.storage),
    }
}

/// What a reduction is answered.
pub open spec fn reduce_answer(
    dev: u64,
    found: Option<DeviceModel>,
    x: u64,
    partials: u64,
    out: u64,
    plan: Option<Seq<u8>>,
) -> Result<StepModel, Refusal> {
    match first(request_refusal(plan), device_refusal(dev, found)) {
        Some(refusal) => Err(refusal),
        None => (ReduceCall { device: found->0, x, partials, out, plan: plan->0 }).answer(),
    }
}

/// Read a request: the decoded block and its storage flags.
fn read_request(plan: Option<&[u8]>) -> (r: Result<(ReduceRequest, u32), Refusal>)
    ensures
        match request_refusal(block_of(plan)) {
            Some(refusal) => r is Err && r->Err_0 == refusal,
            None => {
                &&& r is Ok
                &&& plan is Some
                &&& r->Ok_0.0@ == block_request(plan->0@.take(80))
                &&& block_fault(plan->0@.take(80)) is None
                &&& r->Ok_0.0.ndim <= MAX_RANK
                &&& r->Ok_0.1 == storage_word(plan->0@)
                &&& r->Ok_0.1 <= 3
            },
        },
{
    let bytes: &[u8] = match plan {
        None => {
            return Err(Refusal { code: ACK_ERR_NULL, reason: Reason::Unnamed });
        },
        Some(p) => p,
    };
    if bytes.len() != PUSH_BYTES && bytes.len() != REQUEST_BYTES {
        return Err(
            Refusal { code: ACK_ERR_SIZE, reason: Reason::ReduceLength { len: bytes.len() } },
        );
    }
    let storage: u32 = if bytes.len() == REQUEST_BYTES {
        proof {
            lemma_word_fits(bytes@, 20);
        }
        read_word(bytes, 20)
    } else {
        0
    };
    if storage & !STORAGE_FLAGS != 0 {
        return Err(
            Refusal {
                code: ACK_ERR_SHAPE,
                reason: Reason::ReduceRequest { fault: RequestFault::StorageFlags },
            },
        );
    }
    assert(storage & !3u32 == 0 ==> storage <= 3) by (bit_vector);
    let mut block: [u8; PUSH_BYTES] = [0; PUSH_BYTES];
    let mut i: usize = 0;
    while i < PUSH_BYTES
        invariant
            i <= PUSH_BYTES,
            bytes.len() >= PUSH_BYTES,
            forall|j: int| 0 <= j < i ==> block@[j] == bytes@[j],
        decreases PUSH_BYTES - i,
    {
        block[i] = bytes[i];
        i += 1;
    }
    proof {
        assert(block@ =~= bytes@.take(80));
    }
    match ReduceRequest::decode(&block) {
        Ok(request) => Ok((request, storage)),
        Err(fault) => Err(
            Refusal { code: ACK_ERR_SHAPE, reason: Reason::ReduceRequest { fault } },
        ),
    }
}

/// The first storage module to build, if one is missing.
fn find_missing(d: &AckDevice, storage: u32) -> (r: Option<Slot>)
    requires
        d.wf(),
    ensures
        r == missing_module(d@, storage),
{
    if storage == 0 {
        return None;
    }
    let mut i: u32 = 1;
    while i < 4
        invariant
            1 <= i <= 4,
            d.wf(),
            storage != 0,
            forall|j: u32|
                1 <= j < i ==> #[trigger] d@.has(Slot::Reduce(j)) && d@.has(Slot::ReduceV2(j)),
        decreases 4 - i,
    {
        assert(forall|j: u32| 1 <= j < i ==> #[trigger] d@.has(Slot::Reduce(j)));
        proof {
            if i > 1 {
                assert(d@.has(Slot::Reduce(1)));
            }
            if i > 2 {
                assert(d@.has(Slot::Reduce(2)));
            }
        }
        if !d.holds(Slot::Reduce(i)) {
            return Some(Slot::Reduce(i));
        }
        if !d.holds(Slot::ReduceV2(i)) {
            return Some(Slot::ReduceV2(i));
        }
        i += 1;
    }
    assert(d@.has(Slot::Reduce(1)) && d@.has(Slot::Reduce(2)) && d@.has(Slot::Reduce(3)));
    None
}

/// One pass, from one buffer to another.
fn pass_launch(d: &AckDevice, p: &ReducePass, from: u64, to: u64) -> (r: Launch)
    requires
        d@.handle_refusal(from) is None,
        d@.handle_refusal(to) is None,
    ensures
        r@ == d@.launch(pass_slot(p@), seq![from, to], 1, p@.push, p@.groups),
{
    let mut push: Vec<u8> = Vec::new();
    let block = p.push_constants();
    push.extend_from_slice(block);
    proof {
        assert(push@ =~= p@.push);
    }
    let slot = match p.kernel() {
        ReduceKernel::V1 => Slot::Reduce(p.storage()),
        ReduceKernel::V2 => Slot::ReduceV2(p.storage()),
    };
    let handles: [u64; 2] = [from, to];
    proof {
        assert(handles@ =~= seq![from, to]);
    }
    d.launch_on(slot, &handles, 1, push, p.dispatch_groups())
}

/// The plan of a decoded request on resolved buffers.
fn plan_request(request: &ReduceRequest, storage: u32, bytes: u64, v1_only: bool) -> (r: Result<
    ReducePlan,
    ReducePlanError,
>)
    requires
        1 <= request.ndim <= MAX_RANK,
        padding_is_plain(request@.view),
    ensures
        ({
            let v = request@.view;
            let q = ReduceRequestModel {
                view: v,
                mask: request@.mask,
                op: request@.op,
                finish: request@.finish,
                scale: request@.scale,
                capacity: bytes / stored_bytes(storage, FLAG_IN_BF16),
                allow_v2: !v1_only,
                storage,
            };
            match view_refusal(
                v.shape.take(v.ndim as int),
                v.stride.take(v.ndim as int),
                v.offset,
            ) {
                Some(error) => r is Err && r->Err_0 == error,
                None => match q.refusal() {
                    Some(error) => r is Err && r->Err_0 == error,
                    None => r is Ok && r->Ok_0.request() == q,
                },
            }
        }),
{
    let all_shape: &[u32] = &request.shape;
    let all_stride: &[u32] = &request.stride;
    let shape = vstd::slice::slice_subrange(all_shape, 0, request.ndim);
    let stride = vstd::slice::slice_subrange(all_stride, 0, request.ndim);
    proof {
        assert(shape@ =~= request@.view.shape.take(request.ndim as int));
        assert(stride@ =~= request@.view.stride.take(request.ndim as int));
        assert(described(shape@, stride@, request.offset) =~= request@.view);
    }
    let view = match ReduceView::new(shape, stride, request.offset) {
        Ok(v) => v,
        Err(e) => {
            return Err(e);
        },
    };
    let in_bytes: u64 = element_bytes(storage & FLAG_IN_BF16 != 0);
    ReducePlan::with_storage(
        view,
        request.reduced_mask,
        request.op,
        request.finish,
        request.scale,
        bytes / in_bytes,
        !v1_only,
        storage,
    )
}

/// `out[kept] = reduce(x)` over the reduced dimensions of a strided view, in
/// one pass or in two through `partials`. Refused by name before anything is
/// recorded; a reduction is never in place.
pub fn ack_reduce(
    dev: u64,
    found: Option<&AckDevice>,
    x: u64,
    partials: u64,
    out: u64,
    plan: Option<&[u8]>,
) -> (r: Result<Step, Refusal>)
    requires
        found matches Some(d) ==> d.wf(),
    ensures
        answer(r) == reduce_answer(dev, found_model(found), x, partials, out, block_of(plan)),
{
    let (request, storage) = match read_request(plan) {
        Ok(r) => r,
        Err(refusal) => {
            return Err(refusal);
        },
    };
    let d: &AckDevice = match open_device(dev, found) {
        Ok(d) => d,
        Err(refusal) => {
            return Err(refusal);
        },
    };
    let ghost call = ReduceCall { device: d@, x, partials, out, plan: plan->0@ };
    match find_missing(d, storage) {
        Some(slot) => {
            return Ok(Step::Build(slot));
        },
        None => {},
    }
    let source: &Buffer = match d.buffer_of(x) {
        Ok(b) => b,
        Err(refusal) => {
            return Err(refusal);
        },
    };
    let between: Option<&Buffer> = if partials == 0 {
        None
    } else {
        match d.buffer_of(partials) {
            Ok(b) => Some(b),
            Err(refusal) => {
                return Err(refusal);
            },
        }
    };
    let target: &Buffer = match d.buffer_of(out) {
        Ok(b) => b,
        Err(refusal) => {
            return Err(refusal);
        },
    };
    let planned = match plan_request(&request, storage, source.size(), d.reduce_v1_only()) {
        Ok(p) => p,
        Err(error) => {
            return Err(
                Refusal { code: reduce_plan_code(error), reason: Reason::Reduce { error } },
            );
        },
    };
    assert(planned.request() == call.request());
    if target.id() == source.id() {
        return Err(
            Refusal {
                code: ACK_ERR_SHAPE,
                reason: Reason::OutputAliases { family: Family::Reduce },
            },
        );
    }
    let room: u64 = target.size() / element_bytes(storage & FLAG_OUT_BF16 != 0);
    if room < planned.output_len() as u64 {
        return Err(
            Refusal {
                code: ACK_ERR_SIZE,
                reason: Reason::ReduceOutput { have: room, need: planned.output_len() },
            },
        );
    }
    if planned.second().is_some() {
        match between {
            None => {
                return Err(
                    Refusal {
                        code: ACK_ERR_NULL,
                        reason: Reason::NoPartials { splits: planned.splits() },
                    },
                );
            },
            Some(p) => {
                if p.id() == source.id() || p.id() == target.id() {
                    return Err(Refusal { code: ACK_ERR_SHAPE, reason: Reason::PartialsAlias });
                }
                let have: u64 = p.size() / 4;
                let need: usize = planned.first().output_len();
                if have < need as u64 {
                    return Err(
                        Refusal {
                            code: ACK_ERR_SIZE,
                            reason: Reason::ReducePartials { have, need },
                        },
                    );
                }
            },
        }
    }
    if !d.holds(Slot::Reduce(0)) {
        return Err(
            Refusal {
                code: ACK_ERR_UNSUPPORTED_OP,
                reason: Reason::Absent { family: Family::Reduce },
            },
        );
    }
    if !d.holds(Slot::ReduceV2(0)) {
        return Err(
            Refusal { code: ACK_ERR_UNSUPPORTED_OP, reason: Reason::ReduceV2Absent },
        );
    }
    let mut all: Vec<Launch> = Vec::new();
    let none: Vec<Image> = Vec::new();
    match (planned.second(), between) {
        (Some(second), Some(_)) => {
            all.push(pass_launch(d, planned.first(), x, partials));
            all.push(pass_launch(d, second, partials, out));
        },
        _ => {
            all.push(pass_launch(d, planned.first(), x, out));
        },
    }
    proof {
        assert(super::device::images(none@) =~= Seq::<ImageModel>::empty());
        assert(launches(all@) =~= call.passes());
    }
    Ok(Step::Run(none, all))
}

/// The kernels that an accepted reduction runs are all on the device.
pub proof fn law_reduction_modules_are_present(c: ReduceCall)
    requires
        c.storage() & !3u32 == 0,
        missing_module(c.device, c.storage()) is None,
        c.refusal() is None,
    ensures
        forall|i: int|
            0 <= i < c.passes().len() ==> (#[trigger] c.passes()[i]).slot.valid() && c.device.has(
                c.passes()[i].slot,
            ),
{
    let s = c.storage();
    assert(s & !3u32 == 0 ==> s <= 3 && s & 1 <= 3 && s & 2 <= 3) by (bit_vector);
    assert(0u32 & 1 == 0 && 0u32 & 2 == 0) by (bit_vector);
    let d = c.device;
    assert(d.has(Slot::Reduce(0)) && d.has(Slot::ReduceV2(0)));
}

/// A reduction is never in place: no pass writes a buffer that it reads, and
/// the input is never written.
pub proof fn law_reduction_is_never_in_place(c: ReduceCall)
    requires
        c.refusal() is None,
    ensures
        forall|i: int|
            0 <= i < c.passes().len() ==> {
                let a = (#[trigger] c.passes()[i]).access;
                &&& a[0].kind == AccessKind::Read
                &&& a[1].kind == AccessKind::Write
                &&& a[0].buffer != a[1].buffer
                &&& a[1].buffer != c.device.buffer(c.x).id
            },
{
}

/// A block is faultless exactly when its operation and finish are known, it has one
/// to six dimensions, at most 2^32 - 1 reduced elements, its two derived words are
/// zero, and its padding is plain; what fails first is the fault.
pub proof fn law_blocks_are_faultless_exactly_when_consistent(block: Seq<u8>)
    ensures
        ({
            let v = block_view(block);
            let known = word(block, 0) <= 2;
            let finished = word(block, 1) <= 2;
            let ranked = 1 <= word(block, 2) <= 6;
            let counted = v.product(word(block, 3), true, v.ndim) <= 0xffff_ffff;
            let unset = word(block, 17) == 0 && word(block, 18) == 0;
            let plain = padding_is_plain(v);
            &&& block_fault(block) is None <==> known && finished && ranked && counted && unset
                && plain
            &&& block_fault(block) == Some(RequestFault::Operation) <==> !known
            &&& block_fault(block) == Some(RequestFault::Finish) <==> known && !finished
            &&& block_fault(block) == Some(RequestFault::Rank) <==> known && finished && !ranked
            &&& block_fault(block) == Some(RequestFault::ReducedCount) <==> known && finished
                && ranked && !counted
            &&& block_fault(block) == Some(RequestFault::ReservedWord) <==> known && finished
                && ranked && counted && !unset
            &&& block_fault(block) == Some(RequestFault::Padding) <==> known && finished && ranked
                && counted && unset && !plain
        }),
{
}

/// Padding is plain exactly when every dimension beyond the rank has extent 1 and
/// stride 0.
pub proof fn law_plain_padding_neither_repeats_nor_moves(v: ReduceViewModel, d: int)
    requires
        v.ndim <= d < 6,
    ensures
        padding_is_plain(v) ==> v.shape[d] == 1 && v.stride[d] == 0,
        v.shape[d] != 1 || v.stride[d] != 0 ==> !padding_is_plain(v),
{
}

/// A block is read word by word: the operation, the finish, the dimensions and
/// the mask, six extents, six strides, the offset, and the scale last.
pub proof fn law_block_is_read_word_by_word(block: Seq<u8>)
    requires
        block.len() == 80,
        block_fault(block) is None,
    ensures
        ({
            let q = block_request(block);
            &&& q.op.word() == word_at(block, 0)
            &&& q.finish.word() == word_at(block, 1)
            &&& q.view.ndim == word_at(block, 2)
            &&& q.mask == word_at(block, 3)
            &&& q.view.shape.len() == 6 && q.view.stride.len() == 6
            &&& q.view.shape[0] == word_at(block, 4)
            &&& q.view.shape[1] == word_at(block, 5)
            &&& q.view.shape[2] == word_at(block, 6)
            &&& q.view.shape[3] == word_at(block, 7)
            &&& q.view.shape[4] == word_at(block, 8)
            &&& q.view.shape[5] == word_at(block, 9)
            &&& q.view.stride[0] == word_at(block, 10)
            &&& q.view.stride[1] == word_at(block, 11)
            &&& q.view.stride[2] == word_at(block, 12)
            &&& q.view.stride[3] == word_at(block, 13)
            &&& q.view.stride[4] == word_at(block, 14)
            &&& q.view.stride[5] == word_at(block, 15)
            &&& q.view.offset == word_at(block, 16)
            &&& q.scale == word_at(block, 19)
        }),
{
    lemma_word_fits(block, 0);
    lemma_word_fits(block, 1);
    lemma_word_fits(block, 2);
    lemma_word_fits(block, 3);
    lemma_word_fits(block, 4);
    lemma_word_fits(block, 5);
    lemma_word_fits(block, 6);
    lemma_word_fits(block, 7);
    lemma_word_fits(block, 8);
    lemma_word_fits(block, 9);
    lemma_word_fits(block, 10);
    lemma_word_fits(block, 11);
    lemma_word_fits(block, 12);
    lemma_word_fits(block, 13);
    lemma_word_fits(block, 14);
    lemma_word_fits(block, 15);
    lemma_word_fits(block, 16);
    lemma_word_fits(block, 19);
}

/// Word `i` of a request's first eighty bytes is word `i` of the request.
proof fn lemma_taken_word(plan: Seq<u8>, i: int)
    requires
        plan.len() >= 80,
        0 <= i < 20,
    ensures
        word_at(plan.take(80), i) == word_at(plan, i),
{
    assert(plan.take(80).subrange(4 * i, 4 * i + 4) =~= plan.subrange(4 * i, 4 * i + 4));
}

/// The view of a request that is planned is admitted.
proof fn lemma_planned_view_is_valid(c: ReduceCall)
    requires
        block_fault(c.plan.take(80)) is None,
        c.planning() is None,
    ensures
        c.request().view.valid(),
        c.request().refusal() is None,
{
    let v = c.asked().view;
    let (shape, stride) = (v.shape.take(v.ndim as int), v.stride.take(v.ndim as int));
    assert(described(shape, stride, v.offset) =~= v);
    assert forall|d: int| 0 <= d < 6 implies #[trigger] v.shape[d] >= 1 by {
        if d < v.ndim {
            assert(shape[d] != 0) by {
                assert(!shape.contains(0));
            }
        } else {
            assert(v.shape[d] == 1);
        }
    }
}

/// What a call asks for, in the words of its own block.
proof fn lemma_request_is_the_block(c: ReduceCall)
    requires
        c.plan.len() >= 80,
        block_fault(c.plan.take(80)) is None,
    ensures
        ({
            let q = c.request();
            &&& q.op.word() == word_at(c.plan, 0)
            &&& q.finish.word() == word_at(c.plan, 1)
            &&& q.view.ndim == word_at(c.plan, 2)
            &&& q.mask == word_at(c.plan, 3)
            &&& q.view.shape[0] == word_at(c.plan, 4)
            &&& q.view.shape[1] == word_at(c.plan, 5)
            &&& q.view.shape[2] == word_at(c.plan, 6)
            &&& q.view.shape[3] == word_at(c.plan, 7)
            &&& q.view.shape[4] == word_at(c.plan, 8)
            &&& q.view.shape[5] == word_at(c.plan, 9)
            &&& q.view.stride[0] == word_at(c.plan, 10)
            &&& q.view.stride[1] == word_at(c.plan, 11)
            &&& q.view.stride[2] == word_at(c.plan, 12)
            &&& q.view.stride[3] == word_at(c.plan, 13)
            &&& q.view.stride[4] == word_at(c.plan, 14)
            &&& q.view.stride[5] == word_at(c.plan, 15)
            &&& q.view.offset == word_at(c.plan, 16)
            &&& q.scale == word_at(c.plan, 19)
        }),
{
    law_block_is_read_word_by_word(c.plan.take(80));
    lemma_taken_word(c.plan, 0);
    lemma_taken_word(c.plan, 1);
    lemma_taken_word(c.plan, 2);
    lemma_taken_word(c.plan, 3);
    lemma_taken_word(c.plan, 4);
    lemma_taken_word(c.plan, 5);
    lemma_taken_word(c.plan, 6);
    lemma_taken_word(c.plan, 7);
    lemma_taken_word(c.plan, 8);
    lemma_taken_word(c.plan, 9);
    lemma_taken_word(c.plan, 10);
    lemma_taken_word(c.plan, 11);
    lemma_taken_word(c.plan, 12);
    lemma_taken_word(c.plan, 13);
    lemma_taken_word(c.plan, 14);
    lemma_taken_word(c.plan, 15);
    lemma_taken_word(c.plan, 16);
    lemma_taken_word(c.plan, 19);
}

/// The blocks that an accepted call pushes are its passes' own.
proof fn lemma_pushed_blocks(c: ReduceCall)
    ensures
        c.request().second() is None ==> c.passes().len() == 1,
        c.request().second() is Some ==> c.passes().len() == 2 && c.passes()[1].push
            == c.request().second()->0.push,
        c.passes()[0].push == c.request().first().push,
{
}

/// The first pass of an accepted call pushes the caller's own words: operation,
/// dimensions, mask, extents, strides, offset and scale. The caller's finish is in
/// the block of the last pass, with the scale beside it.
pub proof fn law_accepted_reduction_pushes_its_words(c: ReduceCall)
    requires
        c.plan.len() == 80 || c.plan.len() == 84,
        block_fault(c.plan.take(80)) is None,
        c.refusal() is None,
    ensures
        ({
            let first = c.passes()[0].push;
            let last = c.passes()[c.passes().len() - 1].push;
            &&& c.passes().len() == 1 || c.passes().len() == 2
            &&& word_at(first, 0) == word_at(c.plan, 0)
            &&& word_at(first, 2) == word_at(c.plan, 2)
            &&& word_at(first, 3) == word_at(c.plan, 3)
            &&& word_at(first, 4) == word_at(c.plan, 4)
            &&& word_at(first, 5) == word_at(c.plan, 5)
            &&& word_at(first, 6) == word_at(c.plan, 6)
            &&& word_at(first, 7) == word_at(c.plan, 7)
            &&& word_at(first, 8) == word_at(c.plan, 8)
            &&& word_at(first, 9) == word_at(c.plan, 9)
            &&& word_at(first, 10) == word_at(c.plan, 10)
            &&& word_at(first, 11) == word_at(c.plan, 11)
            &&& word_at(first, 12) == word_at(c.plan, 12)
            &&& word_at(first, 13) == word_at(c.plan, 13)
            &&& word_at(first, 14) == word_at(c.plan, 14)
            &&& word_at(first, 15) == word_at(c.plan, 15)
            &&& word_at(first, 16) == word_at(c.plan, 16)
            &&& word_at(first, 19) == word_at(c.plan, 19)
            &&& word_at(last, 1) == word_at(c.plan, 1)
            &&& word_at(last, 19) == word_at(c.plan, 19)
            &&& c.passes().len() == 2 ==> word_at(first, 1) == 0
        }),
{
    let q = c.request();
    lemma_planned_view_is_valid(c);
    lemma_request_is_the_block(c);
    lemma_pushed_blocks(c);
    law_first_pass_holds_the_request(q);
    law_operations_are_numbered(q.op, q.finish);
    if q.second() is Some {
        law_second_pass_combines_the_partial_results(q);
    }
}

/// An accepted call in one pass reads the input and writes the output; in two, the
/// first writes the partials, which the second reads before it writes the output.
/// Each pass runs the module of its kernel and its own storage bits, over its own
/// grid.
pub proof fn law_accepted_reduction_connects_its_buffers(c: ReduceCall)
    requires
        c.refusal() is None,
    ensures
        ({
            let q = c.request();
            let p = c.passes();
            &&& q.second() is None ==> p.len() == 1 && p[0].buffers == seq![
                (c.x % 0x1_0000_0000) as u32,
                (c.out % 0x1_0000_0000) as u32,
            ]
            &&& q.second() is Some ==> p.len() == 2 && p[0].buffers == seq![
                (c.x % 0x1_0000_0000) as u32,
                (c.partials % 0x1_0000_0000) as u32,
            ] && p[1].buffers == seq![
                (c.partials % 0x1_0000_0000) as u32,
                (c.out % 0x1_0000_0000) as u32,
            ] && c.partials != 0
            &&& p[0].groups == q.first().groups
            &&& q.first().kernel is V1 ==> p[0].slot == Slot::Reduce(q.first().storage)
            &&& q.first().kernel is V2 ==> p[0].slot == Slot::ReduceV2(q.first().storage)
            &&& q.second() matches Some(second) ==> p[1].slot == Slot::Reduce(second.storage)
                && p[1].groups == second.groups
            &&& p[0].access[0].kind == AccessKind::Read && p[0].access[1].kind == AccessKind::Write
            &&& q.second() is Some ==> p[1].access[0].kind == AccessKind::Read
                && p[1].access[1].kind == AccessKind::Write
        }),
{
    let q = c.request();
    assert(c.pass(q.first(), c.x, c.target()).buffers =~= seq![
        (c.x % 0x1_0000_0000) as u32,
        (c.target() % 0x1_0000_0000) as u32,
    ]);
    if let Some(p) = q.second() {
        assert(c.pass(p, c.partials, c.out).buffers =~= seq![
            (c.partials % 0x1_0000_0000) as u32,
            (c.out % 0x1_0000_0000) as u32,
        ]);
    }
}

/// The buffers of an accepted call hold what its passes touch: the input its last
/// address and the output every kept element, in two bytes where their storage bit
/// is set and four otherwise, and the partials every result of the first pass in
/// four.
pub proof fn law_accepted_reduction_stays_inside_its_buffers(c: ReduceCall)
    requires
        c.storage() <= 3,
        c.refusal() is None,
    ensures
        ({
            let q = c.request();
            let d = c.device;
            let narrow_in = c.storage() == 1 || c.storage() == 3;
            let narrow_out = c.storage() == 2 || c.storage() == 3;
            &&& narrow_in ==> 2 * (q.view.last() + 1) <= d.buffer(c.x).bytes
            &&& !narrow_in ==> 4 * (q.view.last() + 1) <= d.buffer(c.x).bytes
            &&& narrow_out ==> 2 * q.kept() <= d.buffer(c.out).bytes
            &&& !narrow_out ==> 4 * q.kept() <= d.buffer(c.out).bytes
            &&& q.second() is Some ==> 4 * q.first().output_len <= d.buffer(c.partials).bytes
        }),
{
    let s = c.storage();
    assert((s & 1u32 != 0 <==> s == 1 || s == 3) && (s & 2u32 != 0 <==> s == 2 || s == 3))
        by (bit_vector)
        requires
            s <= 3,
    ;
    let q = c.request();
    let (x, out) = (c.device.buffer(c.x).bytes, c.device.buffer(c.out).bytes);
    assert(c.planning() is None && c.output() is None && c.scratch() is None);
    assert(q.refusal() is None);
    assert(q.view.last() < q.capacity);
    assert(c.room() >= q.kept());
    if s & 1u32 != 0 {
        assert(q.capacity == x / 2);
    } else {
        assert(q.capacity == x / 4);
    }
    if s & 2u32 != 0 {
        assert(c.room() == out / 2);
    } else {
        assert(c.room() == out / 4);
    }
}

/// A request is taken up exactly with a block of 80 bytes, or 84 with a storage
/// word of at most 3 behind them, that is faultless.
pub proof fn law_requests_are_taken_up_with_a_faultless_block(plan: Option<Seq<u8>>)
    ensures
        request_refusal(plan) is None <==> plan is Some && (plan->0.len() == 80 || (plan->0.len()
            == 84 && word(plan->0, 20) <= 3)) && block_fault(plan->0.take(80)) is None,
        plan is None ==> request_refusal(plan)->0.code == -1,
        plan is Some && plan->0.len() != 80 && plan->0.len() != 84 ==> request_refusal(plan)->0.code
            == -4,
        plan is Some && (plan->0.len() == 80 || plan->0.len() == 84) && request_refusal(plan)
            is Some ==> request_refusal(plan)->0.code == -3,
{
    if plan is Some {
        let s = storage_word(plan->0);
        assert(s & !3u32 == 0 <==> s <= 3) by (bit_vector);
    }
}

/// A request with storage bits waits until all six storage modules are there, and
/// builds them in order; one without never does.
pub proof fn law_storage_modules_are_built_in_order(d: DeviceModel, storage: u32)
    ensures
        missing_module(d, storage) is None <==> storage == 0 || (d.has(Slot::Reduce(1)) && d.has(
            Slot::ReduceV2(1),
        ) && d.has(Slot::Reduce(2)) && d.has(Slot::ReduceV2(2)) && d.has(Slot::Reduce(3)) && d.has(
            Slot::ReduceV2(3),
        )),
        missing_module(d, storage) matches Some(slot) ==> !d.has(slot) && (slot == Slot::Reduce(1)
            || slot == Slot::ReduceV2(1) || slot == Slot::Reduce(2) || slot == Slot::ReduceV2(2)
            || slot == Slot::Reduce(3) || slot == Slot::ReduceV2(3)),
        storage != 0 && !d.has(Slot::Reduce(1)) ==> missing_module(d, storage) == Some(
            Slot::Reduce(1),
        ),
{
}

/// A call on resolved handles is refused by its plan first, as a size where the
/// view reaches beyond its bounds or its buffer and as a shape otherwise; then for
/// its output, for its partials where it has two passes, and for its kernels.
pub proof fn law_refused_reductions_say_why(c: ReduceCall)
    requires
        c.handles() is None,
    ensures
        ({
            let d = c.device;
            let q = c.request();
            let in_place = d.buffer(c.out).id == d.buffer(c.x).id;
            let aliased = d.buffer(c.partials).id == d.buffer(c.x).id || d.buffer(c.partials).id
                == d.buffer(c.out).id;
            &&& c.planning() is Some ==> c.refusal() == c.planning()
            &&& c.planning() is None && in_place ==> c.refusal()->0.code == -3
            &&& c.planning() is None && !in_place && c.room() < q.kept() ==> c.refusal()->0.code
                == -4
            &&& c.planning() is None && !in_place && c.room() >= q.kept() && q.second() is Some
                && c.partials == 0 ==> c.refusal()->0.code == -1
            &&& c.planning() is None && !in_place && c.room() >= q.kept() && q.second() is Some
                && c.partials != 0 && aliased ==> c.refusal()->0.code == -3
            &&& c.planning() is None && !in_place && c.room() >= q.kept() && q.second() is None ==> (
            c.refusal() is None <==> d.has(Slot::Reduce(0)) && d.has(Slot::ReduceV2(0)))
            &&& c.planning() is None && !in_place && c.room() >= q.kept() && q.second() is Some
                && c.partials != 0 && !aliased && 4 * q.first().output_len <= d.buffer(
                c.partials,
            ).bytes ==> (c.refusal() is None <==> d.has(Slot::Reduce(0)) && d.has(
                Slot::ReduceV2(0),
            ))
        }),
        plan_code(ReducePlanError::AddressOutOfRange) == -4,
        plan_code(ReducePlanError::CapacityTooSmall) == -4,
        forall|e: ReducePlanError|
            !(e is AddressOutOfRange || e is CapacityTooSmall) ==> #[trigger] plan_code(e) == -3,
{
}

/// A call's handles resolve exactly when the input's and the output's do, and the
/// partials' does or is null.
pub proof fn law_partials_may_be_null(c: ReduceCall)
    ensures
        c.handles() is None <==> c.device.handle_refusal(c.x) is None && c.device.handle_refusal(
            c.out,
        ) is None && (c.partials == 0 || c.device.handle_refusal(c.partials) is None),
{
}

/// What the device and the request block ask of a plan: the input's capacity in
/// its own elements, the second kernel where the device allows it, and the storage
/// bits.
pub proof fn law_request_measures_the_input(c: ReduceCall)
    requires
        c.storage() <= 3,
    ensures
        ({
            let q = c.request();
            let bytes = c.device.buffer(c.x).bytes;
            let width = if c.storage() == 1 || c.storage() == 3 {
                2int
            } else {
                4
            };
            &&& q.capacity * width <= bytes < (q.capacity + 1) * width
            &&& q.allow_v2 == !c.device.reduce_v1_only
            &&& q.storage == c.storage()
        }),
{
    let s = c.storage();
    assert(s & 1u32 != 0 <==> s == 1 || s == 3) by (bit_vector)
        requires
            s <= 3,
    ;
    let n = c.request().capacity;
    let bytes = c.device.buffer(c.x).bytes;
    if s & 1u32 != 0 {
        assert(n == bytes / 2);
    } else {
        assert(n == bytes / 4);
    }
}

/// A pass runs on the kernel of its kind, in the module of its storage.
pub proof fn law_pass_runs_on_its_kernel(p: PassModel)
    ensures
        p.kernel is V1 ==> pass_slot(p) == Slot::Reduce(p.storage),
        p.kernel is V2 ==> pass_slot(p) == Slot::ReduceV2(p.storage),
{
}

/// A refused reduction says why, in the order in which it is looked at: what the
/// plan refuses, the output, the partial results, and the kernels.
pub proof fn law_refused_reductions_name_the_reason(p: Seq<u8>, c: ReduceCall)
    requires
        p.len() <= usize::MAX,
    ensures
        request_refusal(None)->0.reason is Unnamed,
        p.len() != 80 && p.len() != 84 ==> request_refusal(Some(p))->0.reason
            == (Reason::ReduceLength { len: p.len() as usize }),
        p.len() == 80 || p.len() == 84 ==> (request_refusal(Some(p)) is Some ==> request_refusal(
            Some(p),
        )->0.reason is ReduceRequest),
        p.len() == 84 && word(p, 20) > 3 ==> request_refusal(Some(p))->0.reason
            == (Reason::ReduceRequest { fault: RequestFault::StorageFlags }),
        (p.len() == 80 || p.len() == 84 && word(p, 20) <= 3) && block_fault(p.take(80)) is Some
            ==> request_refusal(Some(p))->0.reason == (Reason::ReduceRequest {
            fault: block_fault(p.take(80))->0,
        }),
        c.handles() is None ==> {
            let d = c.device;
            let same = d.buffer(c.out).id == d.buffer(c.x).id;
            let fits = c.room() >= c.request().kept();
            let two = c.request().second() is Some;
            let q = d.buffer(c.partials);
            let aliased = q.id == d.buffer(c.x).id || q.id == d.buffer(c.out).id;
            &&& c.planning() is Some ==> c.refusal() == c.planning() && c.refusal()->0.reason is Reduce
            &&& c.planning() is None && same ==> c.refusal()->0.reason == (Reason::OutputAliases {
                family: Family::Reduce,
            })
            &&& c.planning() is None && !same && !fits ==> c.refusal()->0.reason
                == (Reason::ReduceOutput { have: c.room(), need: c.request().kept() as usize })
            &&& c.planning() is None && !same && fits && two && c.partials == 0
                ==> c.refusal()->0.reason == (Reason::NoPartials {
                splits: c.request().splits() as u32,
            })
            &&& c.planning() is None && !same && fits && two && c.partials != 0 && aliased
                ==> c.refusal()->0.reason is PartialsAlias
            &&& c.planning() is None && !same && fits && two && c.partials != 0 && !aliased
                && q.bytes / 4 < c.request().first().output_len ==> c.refusal()->0.reason
                == (Reason::ReducePartials {
                have: q.bytes / 4,
                need: c.request().first().output_len as usize,
            })
        },
{
    let w: u32 = storage_word(p);
    assert(w & !3u32 != 0 <==> w > 3) by (bit_vector);
}

} // verus!
