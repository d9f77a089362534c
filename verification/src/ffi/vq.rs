//! The vq extension's entry, in three steps between which its plan has a say:
//! the block's words, the six buffers it may use, and the launch.

use super::device::{
    answer, block_of, device_refusal, found_model, one_launch, open_device, run_one, AckDevice,
    DeviceModel, LaunchModel, Slot, Step, StepModel,
};
use super::reason::{first, unless, Reason, Refusal};
use super::{ACK_ERR_NULL, ACK_ERR_POISONED, ACK_ERR_SHAPE, ACK_ERR_SIZE, VQ_PUSH_BYTES, VQ_SCHEMA};
use crate::batch::AccessKind;
use crate::words::{law_words_read_back, read_word, word_at, words_bytes, words_to_bytes};
use vstd::prelude::*;
use vstd::string::*;

verus! {

/// Buffers of a vq call: four inputs, the output and the status word.
pub const VQ_OPERANDS: usize = 6;

/// The extension's version, apart from the records.
pub fn ack_vq_schema() -> (r: u32)
    ensures
        r == 1,
{
    VQ_SCHEMA
}

/// The code a refused plan is returned as: its sizes and limits are one code,
/// everything else another.
pub fn vq_plan_code(about_size: bool) -> (r: i32)
    ensures
        r == (if about_size {
            ACK_ERR_SIZE
        } else {
            ACK_ERR_SHAPE
        }),
{
    if about_size {
        ACK_ERR_SIZE
    } else {
        ACK_ERR_SHAPE
    }
}

/// The words that a refused plan leaves.
pub fn vq_plan_message(name: &str) -> (r: String)
    ensures
        r@ == "vq: plan refused: "@ + name@,
{
    String::from_str("vq: plan refused: ").concat(name)
}

/// Refuse a block that is not eight words.
pub open spec fn words_refusal(plan: Option<Seq<u8>>) -> Option<Refusal> {
    match plan {
        None => Some(Refusal { code: ACK_ERR_NULL, reason: Reason::VqNull }),
        Some(p) => unless(
            p.len() == VQ_PUSH_BYTES,
            ACK_ERR_SIZE,
            Reason::VqLength { len: p.len() as usize },
        ),
    }
}

/// The eight words of a block.
pub fn vq_words(plan: Option<&[u8]>) -> (r: Result<[u32; 8], Refusal>)
    ensures
        match words_refusal(block_of(plan)) {
            Some(refusal) => r is Err && r->Err_0 == refusal,
            None => r is Ok && forall|i: int|
                0 <= i < 8 ==> #[trigger] r->Ok_0@[i] == word_at(plan->0@, i),
        },
{
    let block: &[u8] = match plan {
        None => {
            return Err(Refusal { code: ACK_ERR_NULL, reason: Reason::VqNull });
        },
        Some(p) => p,
    };
    if block.len() != VQ_PUSH_BYTES {
        return Err(
            Refusal { code: ACK_ERR_SIZE, reason: Reason::VqLength { len: block.len() } },
        );
    }
    let mut words: [u32; 8] = [0; 8];
    let mut i: usize = 0;
    while i < 8
        invariant
            i <= 8,
            block.len() == VQ_PUSH_BYTES,
            forall|j: int| 0 <= j < i ==> #[trigger] words@[j] == word_at(block@, j),
        decreases 8 - i,
    {
        words[i] = read_word(block, i);
        i += 1;
    }
    Ok(words)
}

/// What the six buffers of a call hold, and which buffers they are.
#[derive(Clone, Copy, Debug)]
pub struct VqBuffers {
    pub capacities: [u64; 6],
    pub ids: [u64; 6],
}

/// The first of the handles that is refused, from `i` on.
pub open spec fn first_refused(d: DeviceModel, handles: Seq<u64>, i: int) -> Option<Refusal>
    decreases handles.len() - i,
{
    if i < 0 || i >= handles.len() {
        None
    } else {
        first(d.handle_refusal(handles[i]), first_refused(d, handles, i + 1))
    }
}

/// Refuse a call by its device or its handles: nothing is admitted on a poisoned
/// device, and all six handles must be live, read or not.
pub open spec fn admission_refusal(dev: u64, found: Option<DeviceModel>, handles: Seq<u64>) -> Option<
    Refusal,
> {
    first(
        device_refusal(dev, found),
        first(
            unless(found->0.ctx.ledger.usable(), ACK_ERR_POISONED, Reason::VqPoisoned),
            first_refused(found->0, handles, 0),
        ),
    )
}

/// What the six buffers of a call hold, for its plan to decide on.
pub fn vq_admit(dev: u64, found: Option<&AckDevice>, handles: [u64; 6]) -> (r: Result<
    VqBuffers,
    Refusal,
>)
    ensures
        match admission_refusal(dev, found_model(found), handles@) {
            Some(refusal) => r is Err && r->Err_0 == refusal,
            None => r is Ok && forall|i: int|
                #![trigger handles@[i]]
                0 <= i < 6 ==> {
                    &&& r->Ok_0.capacities@[i] == found_model(found)->0.buffer(handles@[i]).bytes
                    &&& r->Ok_0.ids@[i] == found_model(found)->0.buffer(handles@[i]).id
                },
        },
{
    let d: &AckDevice = match open_device(dev, found) {
        Ok(d) => d,
        Err(refusal) => {
            return Err(refusal);
        },
    };
    if d.is_poisoned() {
        return Err(Refusal { code: ACK_ERR_POISONED, reason: Reason::VqPoisoned });
    }
    let mut capacities: [u64; 6] = [0; 6];
    let mut ids: [u64; 6] = [0; 6];
    let mut i: usize = 0;
    while i < 6
        invariant
            i <= 6,
            admission_refusal(dev, found_model(found), handles@) == first_refused(
                d@,
                handles@,
                i as int,
            ),
            forall|j: int|
                #![trigger handles@[j]]
                0 <= j < i ==> {
                    &&& capacities@[j] == d@.buffer(handles@[j]).bytes
                    &&& ids@[j] == d@.buffer(handles@[j]).id
                },
        decreases 6 - i,
    {
        match d.buffer_of(handles[i]) {
            Ok(b) => {
                capacities[i] = b.size();
                ids[i] = b.id();
            },
            Err(refusal) => {
                return Err(refusal);
            },
        }
        i += 1;
    }
    Ok(VqBuffers { capacities, ids })
}

/// An admitted vq call, whose plan gave it a grid.
pub ghost struct VqCall {
    pub device: DeviceModel,
    pub handles: Seq<u64>,
    pub words: Seq<u32>,
    pub groups: Seq<u32>,
}

impl VqCall {
    /// The launch reads the four inputs and writes the output and the status.
    pub open spec fn launch(self) -> LaunchModel {
        self.device.launch(Slot::Vq, self.handles, 4, words_bytes(self.words), self.groups)
    }

    /// The kernel is built once a call is admitted, and never before.
    pub open spec fn answer(self) -> Result<StepModel, Refusal> {
        if !self.device.has(Slot::Vq) {
            Ok(StepModel::Build(Slot::Vq))
        } else {
            Ok(run_one(self.launch()))
        }
    }
}

/// The refusals of a call are all its handles' in turn.
proof fn lemma_all_resolved(d: DeviceModel, handles: Seq<u64>, i: int, j: int)
    requires
        0 <= i <= j < handles.len(),
        first_refused(d, handles, i) is None,
    ensures
        d.handle_refusal(handles[j]) is None,
    decreases j - i,
{
    if i < j {
        lemma_all_resolved(d, handles, i + 1, j);
    }
}

/// An encode, decode, packed-pair product or decoded-state optimizer step that
/// its plan admitted: the words it was planned from are its push block.
pub fn ack_vq(
    dev: u64,
    found: Option<&AckDevice>,
    handles: [u64; 6],
    words: [u32; 8],
    groups: [u32; 3],
) -> (r: Result<Step, Refusal>)
    requires
        found matches Some(d) ==> d.wf(),
    ensures
        match admission_refusal(dev, found_model(found), handles@) {
            Some(refusal) => answer(r) == Err::<StepModel, Refusal>(refusal),
            None => answer(r) == (VqCall {
                device: found_model(found)->0,
                handles: handles@,
                words: words@,
                groups: groups@,
            }).answer(),
        },
{
    match vq_admit(dev, found, handles) {
        Ok(_) => {},
        Err(refusal) => {
            return Err(refusal);
        },
    }
    let d: &AckDevice = match open_device(dev, found) {
        Ok(d) => d,
        Err(refusal) => {
            return Err(refusal);
        },
    };
    if !d.holds(Slot::Vq) {
        return Ok(Step::Build(Slot::Vq));
    }
    proof {
        assert forall|i: int| 0 <= i < handles@.len() implies d@.handle_refusal(
            #[trigger] handles@[i],
        ) is None by {
            lemma_all_resolved(d@, handles@, 0, i);
        }
    }
    Ok(one_launch(d.launch_on(Slot::Vq, &handles, 4, words_to_bytes(&words), groups)))
}

/// A vq call declares its four inputs read, and its output and status written.
pub proof fn law_vq_declares_its_buffers(c: VqCall, i: int)
    requires
        c.handles.len() == VQ_OPERANDS,
        0 <= i < VQ_OPERANDS,
    ensures
        c.launch().access.len() == VQ_OPERANDS,
        c.launch().access[i].buffer == c.device.buffer(c.handles[i]).id,
        c.launch().access[i].kind == AccessKind::Write <==> i >= 4,
{
}

/// A block is read exactly when it is 32 bytes, and its absence is a null.
pub proof fn law_blocks_are_eight_words(plan: Option<Seq<u8>>)
    ensures
        words_refusal(plan) is None <==> plan is Some && plan->0.len() == 32,
        plan is None ==> words_refusal(plan)->0.code == -1,
        plan is Some && plan->0.len() != 32 ==> words_refusal(plan)->0.code == -4,
{
}

/// A call is admitted exactly on an open device whose state is known and with six
/// handles that all resolve; the first that does not answers.
pub proof fn law_calls_are_admitted_with_live_handles(
    dev: u64,
    found: Option<DeviceModel>,
    handles: Seq<u64>,
)
    ensures
        admission_refusal(dev, found, handles) is None <==> {
            &&& dev != 0
            &&& found is Some
            &&& !found->0.closed
            &&& found->0.ctx.ledger.usable()
            &&& forall|i: int|
                0 <= i < handles.len() ==> found->0.handle_refusal(#[trigger] handles[i]) is None
        },
        dev != 0 && found is Some && !found->0.closed && !found->0.ctx.ledger.usable()
            ==> admission_refusal(dev, found, handles)->0.code == -10,
{
    lemma_first_refused(found->0, handles, 0);
}

proof fn lemma_first_refused(d: DeviceModel, handles: Seq<u64>, i: int)
    requires
        0 <= i,
    ensures
        first_refused(d, handles, i) is None <==> forall|j: int|
            i <= j < handles.len() ==> d.handle_refusal(#[trigger] handles[j]) is None,
    decreases handles.len() - i,
{
    if i < handles.len() {
        lemma_first_refused(d, handles, i + 1);
        assert(d.handle_refusal(handles[i]) is None || d.handle_refusal(handles[i]) is Some);
    }
}

/// The first handle that does not resolve decides.
pub proof fn law_first_refused_handle_answers(d: DeviceModel, handles: Seq<u64>, i: int, j: int)
    requires
        0 <= i <= j < handles.len(),
        d.handle_refusal(handles[j]) is Some,
        forall|k: int| i <= k < j ==> d.handle_refusal(#[trigger] handles[k]) is None,
    ensures
        first_refused(d, handles, i) == d.handle_refusal(handles[j]),
    decreases j - i,
{
    if i < j {
        assert(d.handle_refusal(handles[i]) is None);
        law_first_refused_handle_answers(d, handles, i + 1, j);
    }
}

/// An admitted call builds its kernel where that is missing, and else is one
/// launch: its words pushed in order, over its plan's grid, on its six buffers in
/// order.
pub proof fn law_admitted_call_pushes_its_words(c: VqCall, i: int)
    requires
        c.handles.len() == 6,
        c.words.len() == 8,
        0 <= i < 8,
    ensures
        !c.device.has(Slot::Vq) ==> c.answer() == Ok::<StepModel, Refusal>(
            StepModel::Build(Slot::Vq),
        ),
        c.device.has(Slot::Vq) ==> c.answer() == Ok::<StepModel, Refusal>(
            StepModel::Run(Seq::empty(), seq![c.launch()]),
        ),
        c.launch().slot == Slot::Vq,
        c.launch().push.len() == 32,
        word_at(c.launch().push, i) == c.words[i],
        c.launch().groups == c.groups,
        c.launch().buffers.len() == 6,
        i < 6 ==> c.launch().buffers[i] == c.handles[i] % 0x1_0000_0000,
        i < 4 ==> c.launch().access[i].kind == AccessKind::Read,
{
    law_words_read_back(c.words);
}

} // verus!
