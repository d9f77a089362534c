//! A compute kernel: its pipeline objects, its arena of descriptor sets and the
//! buffers it was last bound to; and the build of one, one driver call at a time.

use crate::driver::{Call, Reply};
use crate::error::{AckError, Failure};
use crate::ledger::{kernel_orders, law_destroyed_objects_are_counted, Ledger, LedgerModel, Order};
use crate::words::word_at;
use vstd::prelude::*;
use vstd::string::*;

verus! {

/// One bound buffer: its driver handle and its size.
#[derive(Clone, Copy, Debug, PartialEq, Eq, Structural)]
pub struct Binding {
    pub buffer: u64,
    pub bytes: u64,
}

/// A compute pipeline with an arena of descriptor sets.
#[derive(Debug)]
pub struct Kernel {
    pipeline: u64,
    layout: u64,
    dsl: u64,
    pool: u64,
    sets: u32,
    next_set: u32,
    set_gen: u64,
    storage_buffers: u32,
    push_bytes: u32,
    ctx_id: u64,
    bound: Vec<u64>,
    pending: Vec<Binding>,
}

/// What a `Kernel` holds.
#[verifier::ext_equal]
pub ghost struct KernelModel {
    pub pipeline: u64,
    pub layout: u64,
    pub dsl: u64,
    pub pool: u64,
    /// Sets in the pool: two banks of the arena.
    pub sets: u32,
    /// The next set to hand out, within `set_gen`.
    pub next_set: u32,
    /// The batch generation `next_set` belongs to.
    pub set_gen: u64,
    pub storage_buffers: u32,
    pub push_bytes: u32,
    pub ctx_id: u64,
    /// The ids of the bound buffers, slot for slot.
    pub bound: Seq<u64>,
    /// What a dispatch writes into the set it takes.
    pub pending: Seq<Binding>,
}

impl KernelModel {
    /// Sets one batch can hand out.
    pub open spec fn arena(self) -> u32 {
        self.sets / 2
    }

    /// The sets handed out in the current generation all belong to the arena.
    pub open spec fn wf(self) -> bool {
        &&& self.next_set <= self.arena()
        &&& self.sets % 2 == 0
        &&& self.sets >= 2
    }

    /// The kernels are one kernel, whatever it is bound to.
    pub open spec fn same_build(self, k: KernelModel) -> bool {
        &&& self.ctx_id == k.ctx_id
        &&& self.storage_buffers == k.storage_buffers
        &&& self.push_bytes == k.push_bytes
        &&& self.orders() == k.orders()
    }

    /// The orders that destroy the kernel's four objects.
    pub open spec fn orders(self) -> Seq<Order> {
        kernel_orders(self.pool, self.pipeline, self.layout, self.dsl)
    }

    /// The commands that write the kernel's binding into one of its sets, slot for
    /// slot.
    pub open spec fn binding_orders(self, set: u32) -> Seq<Order> {
        Seq::new(
            self.pending.len(),
            |i: int|
                Order::WriteBinding {
                    pool: self.pool,
                    set,
                    binding: i as u32,
                    buffer: self.pending[i].buffer,
                    bytes: self.pending[i].bytes,
                },
        )
    }

    /// Sets handed out since the flush that began a generation.
    pub open spec fn watermark(self, generation: u64) -> u32 {
        if self.set_gen == generation {
            self.next_set
        } else {
            0
        }
    }
}

impl View for Kernel {
    type V = KernelModel;

    closed spec fn view(&self) -> KernelModel {
        KernelModel {
            pipeline: self.pipeline,
            layout: self.layout,
            dsl: self.dsl,
            pool: self.pool,
            sets: self.sets,
            next_set: self.next_set,
            set_gen: self.set_gen,
            storage_buffers: self.storage_buffers,
            push_bytes: self.push_bytes,
            ctx_id: self.ctx_id,
            bound: self.bound@,
            pending: self.pending@,
        }
    }
}

impl Kernel {
    pub fn context_id(&self) -> (r: u64)
        ensures
            r == self@.ctx_id,
    {
        self.ctx_id
    }

    /// Descriptor sets one batch of this kernel can hand out; the pool holds two
    /// such banks, one for the batch in flight and one for the batch recorded.
    pub fn descriptor_sets(&self) -> (r: u32)
        ensures
            r == self@.arena(),
    {
        self.sets / 2
    }

    pub fn storage_buffers(&self) -> (r: u32)
        ensures
            r == self@.storage_buffers,
    {
        self.storage_buffers
    }

    pub fn push_bytes(&self) -> (r: u32)
        ensures
            r == self@.push_bytes,
    {
        self.push_bytes
    }

    /// The kernel's pipeline, pipeline layout, set layout and descriptor pool.
    pub fn objects(&self) -> (r: (u64, u64, u64, u64))
        ensures
            r == (self@.pipeline, self@.layout, self@.dsl, self@.pool),
    {
        (self.pipeline, self.layout, self.dsl, self.pool)
    }

    /// Sets handed out in a batch generation.
    pub fn watermark(&self, generation: u64) -> (r: u32)
        ensures
            r == self@.watermark(generation),
    {
        if self.set_gen != generation {
            return 0;
        }
        self.next_set
    }

    /// The ids of the bound buffers.
    pub fn bound(&self) -> (r: &Vec<u64>)
        ensures
            r@ == self@.bound,
    {
        &self.bound
    }

    /// Queue the commands that write the binding into one of the kernel's sets.
    pub(crate) fn write_set(&self, ledger: &mut Ledger, set: u32)
        ensures
            final(ledger)@ == old(ledger)@.ordered_all(self@.binding_orders(set)),
    {
        let mut i: usize = 0;
        proof {
            assert(ledger@ =~= ledger@.ordered_all(self@.binding_orders(set).take(0)));
        }
        while i < self.pending.len()
            invariant
                i <= self.pending.len(),
                self@.pending == self.pending@,
                self@.pool == self.pool,
                ledger@ == old(ledger)@.ordered_all(self@.binding_orders(set).take(i as int)),
            decreases self.pending.len() - i,
        {
            let slot: Binding = self.pending[i];
            ledger.order(
                Order::WriteBinding {
                    pool: self.pool,
                    set,
                    binding: i as u32,
                    buffer: slot.buffer,
                    bytes: slot.bytes,
                },
            );
            i += 1;
            proof {
                assert(ledger@ =~= old(ledger)@.ordered_all(
                    self@.binding_orders(set).take(i as int),
                ));
            }
        }
        proof {
            let row = self@.binding_orders(set);
            assert(row.take(row.len() as int) =~= row);
        }
    }

    /// Record a binding; the descriptor set is written at the dispatch.
    pub(crate) fn set_binding(&mut self, bound: Vec<u64>, pending: Vec<Binding>)
        ensures
            final(self)@ == (KernelModel { bound: bound@, pending: pending@, ..old(self)@ }),
    {
        self.bound = bound;
        self.pending = pending;
    }

    /// Hand out the next set of the arena in a generation, or `None` where all
    /// of them are held by recorded work.
    pub(crate) fn take_set(&mut self, generation: u64) -> (r: Option<u32>)
        requires
            old(self)@.wf(),
        ensures
            final(self)@.wf(),
            ({
                let mark = old(self)@.watermark(generation);
                let taken = mark < old(self)@.arena();
                &&& r == (if taken {
                    Some(mark)
                } else {
                    None
                })
                &&& final(self)@ == (KernelModel {
                    next_set: if taken {
                        (mark + 1) as u32
                    } else {
                        mark
                    },
                    set_gen: generation,
                    ..old(self)@
                })
            }),
    {
        if self.set_gen != generation {
            self.next_set = 0;
            self.set_gen = generation;
        }
        match crate::batch::next_set_index(self.next_set, self.sets / 2) {
            Some(i) => {
                self.next_set = i + 1;
                Some(i)
            },
            None => None,
        }
    }
}

/// The four bytes of the word at `i`, the most significant first.
pub open spec fn big_word_at(bytes: Seq<u8>, i: int) -> u32 {
    (bytes[4 * i] * 16777216 + bytes[4 * i + 1] * 65536 + bytes[4 * i + 2] * 256 + bytes[4 * i
        + 3]) as u32
}

/// Whether a binary starts with the SPIR-V magic number, least significant byte
/// first.
pub open spec fn starts_little(bytes: Seq<u8>) -> bool {
    bytes.len() >= 4 && bytes[0] == 0x03 && bytes[1] == 0x02 && bytes[2] == 0x23 && bytes[3] == 0x07
}

/// As `starts_little`, most significant byte first.
pub open spec fn starts_big(bytes: Seq<u8>) -> bool {
    bytes.len() >= 4 && bytes[0] == 0x07 && bytes[1] == 0x23 && bytes[2] == 0x02 && bytes[3] == 0x03
}

/// The words of a SPIR-V binary, in the byte order its magic number shows.
pub open spec fn spirv_words(bytes: Seq<u8>) -> Option<Seq<u32>> {
    if bytes.len() % 4 != 0 {
        None
    } else if starts_little(bytes) {
        Some(Seq::new(bytes.len() / 4, |i: int| word_at(bytes, i) as u32))
    } else if starts_big(bytes) {
        Some(Seq::new(bytes.len() / 4, |i: int| big_word_at(bytes, i)))
    } else {
        None
    }
}

/// Why a binary has no words.
pub open spec fn spirv_refusal(bytes: Seq<u8>) -> Seq<char> {
    if bytes.len() % 4 != 0 {
        "input length not divisible by 4"@
    } else {
        "input missing SPIR-V magic number"@
    }
}

/// The words of a SPIR-V binary, read by `ash::util::read_spv`: it refuses a
/// length that is no multiple of four and a binary whose first word is not the
/// magic number in either byte order, each with its own text, and returns the
/// words in the order the magic number shows.
#[verifier::external_body]
fn read_spv(bytes: &[u8]) -> (r: Result<Vec<u32>, String>)
    ensures
        match spirv_words(bytes@) {
            Some(words) => r is Ok && r->Ok_0@ == words,
            None => r is Err && r->Err_0@ == spirv_refusal(bytes@),
        },
{
    ash::util::read_spv(&mut std::io::Cursor::new(bytes)).map_err(|e| format!("{e}"))
}

/// What a kernel is built to.
#[derive(Clone, Copy, Debug, PartialEq, Eq, Structural)]
pub struct KernelPlan {
    pub storage_buffers: u32,
    /// The size of the push constant range.
    pub push_bytes: u32,
    /// The subgroup size the pipeline requires.
    pub subgroup: Option<u32>,
    /// Sets in one bank.
    pub arena: u32,
    pub ctx_id: u64,
}

impl KernelPlan {
    /// The two banks' sets and their descriptors can be counted.
    pub open spec fn wf(self) -> bool {
        self.arena >= 1 && 2 * self.arena * (if self.storage_buffers == 0 {
            1
        } else {
            self.storage_buffers as int
        }) <= u32::MAX
    }

    pub open spec fn descriptors(self) -> u32 {
        (2 * self.arena * (if self.storage_buffers == 0 {
            1
        } else {
            self.storage_buffers as int
        })) as u32
    }
}

#[derive(Clone, Copy, Debug, PartialEq, Eq, Structural)]
pub enum BuildStage {
    Module,
    SetLayout { module: u64 },
    PipelineLayout { module: u64, dsl: u64 },
    Pipeline { module: u64, dsl: u64, layout: u64 },
    Pool { module: u64, dsl: u64, layout: u64, pipeline: u64 },
    Sets { module: u64, dsl: u64, layout: u64, pipeline: u64, pool: u64 },
}

impl BuildStage {
    /// The orders that destroy what the build owns, the newest first.
    pub open spec fn unwinding(self) -> Seq<Order> {
        match self {
            BuildStage::Module => Seq::empty(),
            BuildStage::SetLayout { module } => seq![Order::DestroyShaderModule(module)],
            BuildStage::PipelineLayout { module, dsl } => seq![
                Order::DestroySetLayout(dsl),
                Order::DestroyShaderModule(module),
            ],
            BuildStage::Pipeline { module, dsl, layout } => seq![
                Order::DestroyPipelineLayout(layout),
                Order::DestroySetLayout(dsl),
                Order::DestroyShaderModule(module),
            ],
            BuildStage::Pool { module, dsl, layout, pipeline } => seq![
                Order::DestroyPipeline(pipeline),
                Order::DestroyPipelineLayout(layout),
                Order::DestroySetLayout(dsl),
                Order::DestroyShaderModule(module),
            ],
            BuildStage::Sets { module, dsl, layout, pipeline, pool } => seq![
                Order::DestroyDescriptorPool(pool),
                Order::DestroyPipeline(pipeline),
                Order::DestroyPipelineLayout(layout),
                Order::DestroySetLayout(dsl),
                Order::DestroyShaderModule(module),
            ],
        }
    }
}

/// The build of one kernel.
#[derive(Debug)]
pub struct KernelBuild {
    plan: KernelPlan,
    stage: BuildStage,
    words: Vec<u32>,
}

/// What a `KernelBuild` holds.
#[verifier::ext_equal]
pub ghost struct BuildModel {
    pub plan: KernelPlan,
    pub stage: BuildStage,
    pub words: Seq<u32>,
}

impl View for KernelBuild {
    type V = BuildModel;

    closed spec fn view(&self) -> BuildModel {
        BuildModel { plan: self.plan, stage: self.stage, words: self.words@ }
    }
}

/// Where a build stands after a reply.
#[derive(Debug)]
pub enum BuildNext {
    Pending(KernelBuild),
    Built(Kernel),
    Refused(AckError),
}

pub ghost enum BuildOutcome {
    Pending(BuildModel),
    Built(KernelModel),
    Refused(Failure),
}

impl View for BuildNext {
    type V = BuildOutcome;

    open spec fn view(&self) -> BuildOutcome {
        match self {
            BuildNext::Pending(b) => BuildOutcome::Pending(b@),
            BuildNext::Built(k) => BuildOutcome::Built(k@),
            BuildNext::Refused(e) => BuildOutcome::Refused(e@),
        }
    }
}

impl BuildModel {
    pub open spec fn next_call(self) -> Call {
        match self.stage {
            BuildStage::Module => Call::CreateShaderModule,
            BuildStage::SetLayout { .. } => Call::CreateSetLayout {
                bindings: self.plan.storage_buffers,
            },
            BuildStage::PipelineLayout { dsl, .. } => Call::CreatePipelineLayout {
                dsl,
                push_bytes: self.plan.push_bytes,
            },
            BuildStage::Pipeline { module, layout, .. } => Call::CreatePipeline {
                module,
                layout,
                subgroup: self.plan.subgroup,
            },
            BuildStage::Pool { .. } => Call::CreateDescriptorPool {
                sets: (2 * self.plan.arena) as u32,
                descriptors: self.plan.descriptors(),
            },
            BuildStage::Sets { dsl, pool, .. } => Call::AllocateSets {
                pool,
                dsl,
                count: (2 * self.plan.arena) as u32,
            },
        }
    }

    pub open spec fn at(self, stage: BuildStage) -> BuildModel {
        BuildModel { stage, ..self }
    }

    /// The ledger and the build after a reply: a failure destroys what exists,
    /// the newest first; success hands all but the module to the kernel.
    pub open spec fn after(self, l: LedgerModel, reply: Reply) -> (LedgerModel, BuildOutcome) {
        match (self.stage, reply) {
            (_, Reply::Failed(code)) => (
                l.destroyed_all(self.stage.unwinding()),
                BuildOutcome::Refused(Failure::Vulkan(code)),
            ),
            (BuildStage::Module, Reply::Handle(module)) => (
                l.created(),
                BuildOutcome::Pending(self.at(BuildStage::SetLayout { module })),
            ),
            (BuildStage::SetLayout { module }, Reply::Handle(dsl)) => (
                l.created(),
                BuildOutcome::Pending(self.at(BuildStage::PipelineLayout { module, dsl })),
            ),
            (BuildStage::PipelineLayout { module, dsl }, Reply::Handle(layout)) => (
                l.created(),
                BuildOutcome::Pending(self.at(BuildStage::Pipeline { module, dsl, layout })),
            ),
            (BuildStage::Pipeline { module, dsl, layout }, Reply::Handle(pipeline)) => (
                l.created(),
                BuildOutcome::Pending(self.at(BuildStage::Pool { module, dsl, layout, pipeline })),
            ),
            (BuildStage::Pool { module, dsl, layout, pipeline }, Reply::Handle(pool)) => (
                l.created(),
                BuildOutcome::Pending(
                    self.at(BuildStage::Sets { module, dsl, layout, pipeline, pool }),
                ),
            ),
            (BuildStage::Sets { module, dsl, layout, pipeline, pool }, Reply::Done) => (
                l.destroyed(Order::DestroyShaderModule(module)),
                BuildOutcome::Built(
                    KernelModel {
                        pipeline,
                        layout,
                        dsl,
                        pool,
                        sets: (2 * self.plan.arena) as u32,
                        next_set: 0,
                        set_gen: 0,
                        storage_buffers: self.plan.storage_buffers,
                        push_bytes: self.plan.push_bytes,
                        ctx_id: self.plan.ctx_id,
                        bound: Seq::empty(),
                        pending: Seq::empty(),
                    },
                ),
            ),
            _ => (l, BuildOutcome::Pending(self)),
        }
    }
}

impl KernelBuild {
    /// Begin a build from a SPIR-V binary; nothing exists yet.
    pub(crate) fn new(spirv: &[u8], plan: KernelPlan) -> (r: Result<Self, AckError>)
        ensures
            match spirv_words(spirv@) {
                Some(words) => r is Ok && r->Ok_0@ == (BuildModel {
                    plan,
                    stage: BuildStage::Module,
                    words,
                }),
                None => r is Err && r->Err_0@ == Failure::Io(spirv_refusal(spirv@)),
            },
    {
        match read_spv(spirv) {
            Ok(words) => Ok(KernelBuild { plan, stage: BuildStage::Module, words }),
            Err(e) => Err(AckError::Io(e)),
        }
    }

    /// The words of the shader module.
    pub fn words(&self) -> (r: &Vec<u32>)
        ensures
            r@ == self@.words,
    {
        &self.words
    }

    /// The call to make next.
    pub fn call(&self) -> (r: Call)
        requires
            self@.plan.wf(),
        ensures
            r == self@.next_call(),
    {
        let plan = self.plan;
        proof {
            let n = if plan.storage_buffers == 0 {
                1int
            } else {
                plan.storage_buffers as int
            };
            assert(2 * plan.arena <= 2 * plan.arena * n) by (nonlinear_arith)
                requires
                    n >= 1,
                    plan.arena >= 1,
            ;
        }
        match self.stage {
            BuildStage::Module => Call::CreateShaderModule,
            BuildStage::SetLayout { .. } => Call::CreateSetLayout { bindings: plan.storage_buffers },
            BuildStage::PipelineLayout { dsl, .. } => Call::CreatePipelineLayout {
                dsl,
                push_bytes: plan.push_bytes,
            },
            BuildStage::Pipeline { module, layout, .. } => Call::CreatePipeline {
                module,
                layout,
                subgroup: plan.subgroup,
            },
            BuildStage::Pool { .. } => {
                let bindings: u32 = if plan.storage_buffers == 0 {
                    1
                } else {
                    plan.storage_buffers
                };
                Call::CreateDescriptorPool {
                    sets: 2 * plan.arena,
                    descriptors: 2 * plan.arena * bindings,
                }
            },
            BuildStage::Sets { dsl, pool, .. } => Call::AllocateSets {
                pool,
                dsl,
                count: 2 * plan.arena,
            },
        }
    }

    /// Take the reply to the call.
    pub fn advance(self, ledger: &mut Ledger, reply: Reply) -> (r: BuildNext)
        requires
            self@.plan.wf(),
            self@.next_call().admits(reply),
        ensures
            (final(ledger)@, r@) == self@.after(old(ledger)@, reply),
            r matches BuildNext::Built(k) ==> k@.wf(),
    {
        let plan = self.plan;
        match (self.stage, reply) {
            (stage, Reply::Failed(code)) => {
                unwind(ledger, stage);
                BuildNext::Refused(AckError::Vulkan(code))
            },
            (BuildStage::Module, Reply::Handle(module)) => {
                ledger.create();
                self.pending(BuildStage::SetLayout { module })
            },
            (BuildStage::SetLayout { module }, Reply::Handle(dsl)) => {
                ledger.create();
                self.pending(BuildStage::PipelineLayout { module, dsl })
            },
            (BuildStage::PipelineLayout { module, dsl }, Reply::Handle(layout)) => {
                ledger.create();
                self.pending(BuildStage::Pipeline { module, dsl, layout })
            },
            (BuildStage::Pipeline { module, dsl, layout }, Reply::Handle(pipeline)) => {
                ledger.create();
                self.pending(BuildStage::Pool { module, dsl, layout, pipeline })
            },
            (BuildStage::Pool { module, dsl, layout, pipeline }, Reply::Handle(pool)) => {
                ledger.create();
                self.pending(BuildStage::Sets { module, dsl, layout, pipeline, pool })
            },
            (BuildStage::Sets { module, dsl, layout, pipeline, pool }, Reply::Done) => {
                ledger.destroy(Order::DestroyShaderModule(module));
                proof {
                    let n = if plan.storage_buffers == 0 {
                        1int
                    } else {
                        plan.storage_buffers as int
                    };
                    assert(2 * plan.arena <= 2 * plan.arena * n) by (nonlinear_arith)
                        requires
                            n >= 1,
                            plan.arena >= 1,
                    ;
                }
                BuildNext::Built(
                    Kernel {
                        pipeline,
                        layout,
                        dsl,
                        pool,
                        sets: 2 * plan.arena,
                        next_set: 0,
                        set_gen: 0,
                        storage_buffers: plan.storage_buffers,
                        push_bytes: plan.push_bytes,
                        ctx_id: plan.ctx_id,
                        bound: Vec::new(),
                        pending: Vec::new(),
                    },
                )
            },
            _ => BuildNext::Pending(self),
        }
    }

    fn pending(self, stage: BuildStage) -> (r: BuildNext)
        ensures
            r@ == BuildOutcome::Pending(self@.at(stage)),
    {
        BuildNext::Pending(KernelBuild { plan: self.plan, stage, words: self.words })
    }
}

/// Destroy what a build owns, the newest first.
fn unwind(ledger: &mut Ledger, stage: BuildStage)
    ensures
        final(ledger)@ == old(ledger)@.destroyed_all(stage.unwinding()),
{
    let ghost start = ledger@;
    let mut done: Ghost<Seq<Order>> = Ghost(Seq::empty());
    match stage {
        BuildStage::Module => {},
        BuildStage::SetLayout { module } => {
            destroy_next(ledger, Order::DestroyShaderModule(module), &mut done, Ghost(start));
        },
        BuildStage::PipelineLayout { module, dsl } => {
            destroy_next(ledger, Order::DestroySetLayout(dsl), &mut done, Ghost(start));
            destroy_next(ledger, Order::DestroyShaderModule(module), &mut done, Ghost(start));
        },
        BuildStage::Pipeline { module, dsl, layout } => {
            destroy_next(ledger, Order::DestroyPipelineLayout(layout), &mut done, Ghost(start));
            destroy_next(ledger, Order::DestroySetLayout(dsl), &mut done, Ghost(start));
            destroy_next(ledger, Order::DestroyShaderModule(module), &mut done, Ghost(start));
        },
        BuildStage::Pool { module, dsl, layout, pipeline } => {
            destroy_next(ledger, Order::DestroyPipeline(pipeline), &mut done, Ghost(start));
            destroy_next(ledger, Order::DestroyPipelineLayout(layout), &mut done, Ghost(start));
            destroy_next(ledger, Order::DestroySetLayout(dsl), &mut done, Ghost(start));
            destroy_next(ledger, Order::DestroyShaderModule(module), &mut done, Ghost(start));
        },
        BuildStage::Sets { module, dsl, layout, pipeline, pool } => {
            destroy_next(ledger, Order::DestroyDescriptorPool(pool), &mut done, Ghost(start));
            destroy_next(ledger, Order::DestroyPipeline(pipeline), &mut done, Ghost(start));
            destroy_next(ledger, Order::DestroyPipelineLayout(layout), &mut done, Ghost(start));
            destroy_next(ledger, Order::DestroySetLayout(dsl), &mut done, Ghost(start));
            destroy_next(ledger, Order::DestroyShaderModule(module), &mut done, Ghost(start));
        },
    }
    proof {
        assert(done@ =~= stage.unwinding());
    }
}

/// Destroy one more object of a row.
fn destroy_next(
    ledger: &mut Ledger,
    order: Order,
    done: &mut Ghost<Seq<Order>>,
    start: Ghost<LedgerModel>,
)
    requires
        old(ledger)@ == start@.destroyed_all(old(done)@),
    ensures
        final(ledger)@ == start@.destroyed_all(final(done)@),
        final(done)@ == old(done)@.push(order),
{
    ledger.destroy(order);
    proof {
        assert(done@.push(order).drop_last() =~= done@);
        done@ = done@.push(order);
    }
}

/// A build owns one object for each creation so far; a failure at any call
/// leaves none of them, and success leaves the kernel's four.
pub proof fn law_kernel_build_accounts_for_its_objects(
    b: BuildModel,
    l: LedgerModel,
    reply: Reply,
    before: int,
)
    requires
        b.next_call().admits(reply),
        i64::MIN + 8 <= before <= i64::MAX - 8,
        l.live_objects == before + b.stage.unwinding().len(),
    ensures
        match b.after(l, reply).1 {
            BuildOutcome::Pending(next) => b.after(l, reply).0.live_objects == before
                + next.stage.unwinding().len(),
            BuildOutcome::Built(k) => b.after(l, reply).0.live_objects == before + k.orders().len(),
            BuildOutcome::Refused(_) => b.after(l, reply).0.live_objects == before,
        },
{
    law_destroyed_objects_are_counted(l, b.stage.unwinding());
}

/// No set is handed out twice in one generation: each is the next after the
/// ones before it, and lies in the arena.
pub proof fn law_sets_are_handed_out_once(k: KernelModel, generation: u64, later: KernelModel)
    requires
        k.wf(),
        k.watermark(generation) < k.arena(),
        later == (KernelModel {
            next_set: (k.watermark(generation) + 1) as u32,
            set_gen: generation,
            ..k
        }),
    ensures
        later.watermark(generation) == k.watermark(generation) + 1,
        later.watermark(generation) <= later.arena(),
        forall|g: u64| g != generation ==> #[trigger] later.watermark(g) == 0,
{
}

/// A dispatch writes each bound buffer, with its size, into the binding of its
/// slot in the set that the dispatch takes.
pub proof fn law_binding_is_written_slot_for_slot(k: KernelModel, set: u32, i: int)
    requires
        0 <= i < k.pending.len() <= u32::MAX,
    ensures
        k.binding_orders(set).len() == k.pending.len(),
        k.binding_orders(set)[i] is WriteBinding,
        k.binding_orders(set)[i]->WriteBinding_pool == k.pool,
        k.binding_orders(set)[i]->WriteBinding_set == set,
        k.binding_orders(set)[i]->WriteBinding_binding == i,
        k.binding_orders(set)[i]->WriteBinding_buffer == k.pending[i].buffer,
        k.binding_orders(set)[i]->WriteBinding_bytes == k.pending[i].bytes,
{
}

/// The arena is one of the two banks that the pool's sets make up.
pub proof fn law_two_arenas_make_the_pool(k: KernelModel, generation: u64)
    requires
        k.wf(),
    ensures
        k.arena() + k.arena() == k.sets,
        k.arena() >= 1,
        k.set_gen != generation ==> k.watermark(generation) == 0,
        k.set_gen == generation ==> k.watermark(generation) == k.next_set,
        k.watermark(generation) <= k.arena(),
{
}

/// A binary is read exactly where it is whole words and starts with the magic
/// number in either byte order; its words are then four bytes each in that
/// order, the first of them the magic number.
pub proof fn law_spirv_is_read_in_its_byte_order(bytes: Seq<u8>, i: int)
    requires
        0 <= i < bytes.len() / 4,
    ensures
        spirv_words(bytes) is Some <==> bytes.len() % 4 == 0 && bytes.len() >= 4 && ((bytes[0] == 3
            && bytes[1] == 2 && bytes[2] == 35 && bytes[3] == 7) || (bytes[0] == 7 && bytes[1]
            == 35 && bytes[2] == 2 && bytes[3] == 3)),
        spirv_words(bytes) matches Some(words) ==> 4 * words.len() == bytes.len() && words[0]
            == 0x07230203,
        spirv_words(bytes) is Some && bytes[0] == 3 ==> spirv_words(bytes)->0[i] == bytes[4 * i] + 256
            * bytes[4 * i + 1] + 65536 * bytes[4 * i + 2] + 16777216 * bytes[4 * i + 3],
        spirv_words(bytes) is Some && bytes[0] == 7 ==> spirv_words(bytes)->0[i] == 16777216 * bytes[4
            * i] + 65536 * bytes[4 * i + 1] + 256 * bytes[4 * i + 2] + bytes[4 * i + 3],
{
    if spirv_words(bytes) is Some {
        let words = spirv_words(bytes)->0;
        assert(bytes.subrange(0, 4)[0] == bytes[0]);
        assert(words[0] == 0x07230203);
    }
}

/// A binary that is no whole number of words is refused for its length, another
/// one for its magic number.
pub proof fn law_refused_spirv_says_why(bytes: Seq<u8>)
    ensures
        bytes.len() % 4 != 0 ==> spirv_words(bytes) is None && spirv_refusal(bytes)
            == "input length not divisible by 4"@,
        bytes.len() % 4 == 0 ==> spirv_refusal(bytes) == "input missing SPIR-V magic number"@,
{
}

/// A pool has two sets for each of the arena's, and a descriptor for each buffer
/// of each set, one at least.
pub proof fn law_pool_has_two_banks(p: KernelPlan)
    requires
        p.wf(),
    ensures
        p.storage_buffers >= 1 ==> p.descriptors() == 2 * p.arena * p.storage_buffers,
        p.storage_buffers == 0 ==> p.descriptors() == 2 * p.arena,
{
}

/// A kernel is built from a module, a set layout of its buffers, a pipeline
/// layout of its push range, a pipeline of the two, and a pool with the sets of
/// both banks; each call is handed what the calls before it made, and the module
/// is destroyed at the end.
pub proof fn law_kernel_is_built_step_by_step(
    p: KernelPlan,
    words: Seq<u32>,
    l: LedgerModel,
    module: u64,
    dsl: u64,
    layout: u64,
    pipeline: u64,
    pool: u64,
)
    requires
        p.wf(),
        i64::MIN + 8 <= l.live_objects <= i64::MAX - 8,
    ensures
        ({
            let b0 = BuildModel { plan: p, stage: BuildStage::Module, words };
            let (l1, o1) = b0.after(l, Reply::Handle(module));
            let b1 = o1->Pending_0;
            let (l2, o2) = b1.after(l1, Reply::Handle(dsl));
            let b2 = o2->Pending_0;
            let (l3, o3) = b2.after(l2, Reply::Handle(layout));
            let b3 = o3->Pending_0;
            let (l4, o4) = b3.after(l3, Reply::Handle(pipeline));
            let b4 = o4->Pending_0;
            let (l5, o5) = b4.after(l4, Reply::Handle(pool));
            let b5 = o5->Pending_0;
            let (l6, o6) = b5.after(l5, Reply::Done);
            let k = o6->Built_0;
            &&& b0.next_call() == Call::CreateShaderModule
            &&& o1 is Pending && b1.words == words
            &&& b1.next_call() == Call::CreateSetLayout { bindings: p.storage_buffers }
            &&& o2 is Pending
            &&& b2.next_call() == Call::CreatePipelineLayout { dsl, push_bytes: p.push_bytes }
            &&& o3 is Pending
            &&& b3.next_call() == Call::CreatePipeline { module, layout, subgroup: p.subgroup }
            &&& o4 is Pending
            &&& b4.next_call() == Call::CreateDescriptorPool {
                sets: (2 * p.arena) as u32,
                descriptors: p.descriptors(),
            }
            &&& o5 is Pending
            &&& b5.next_call() == Call::AllocateSets { pool, dsl, count: (2 * p.arena) as u32 }
            &&& o6 is Built
            &&& k.pipeline == pipeline && k.layout == layout && k.dsl == dsl && k.pool == pool
            &&& k.sets == (2 * p.arena) as u32 && k.next_set == 0 && k.set_gen == 0
            &&& k.storage_buffers == p.storage_buffers && k.push_bytes == p.push_bytes
            &&& k.ctx_id == p.ctx_id
            &&& k.bound.len() == 0 && k.pending.len() == 0
            &&& l5.orders == l.orders
            &&& l6.orders == l.orders + seq![Order::DestroyShaderModule(module)]
            &&& l6.live_objects == l.live_objects + 4
        }),
{
}

/// A build that the driver refuses reports the driver's code and destroys what
/// it had made, the newest first and the module last.
pub proof fn law_refused_build_is_undone(
    b: BuildModel,
    l: LedgerModel,
    module: u64,
    dsl: u64,
    layout: u64,
    pipeline: u64,
    pool: u64,
    code: i32,
)
    ensures
        ({
            let undone = |stage: BuildStage| b.at(stage).after(l, Reply::Failed(code)).0.orders;
            &&& b.after(l, Reply::Failed(code)).1 == BuildOutcome::Refused(Failure::Vulkan(code))
            &&& undone(BuildStage::Module) == l.orders
            &&& undone(BuildStage::SetLayout { module }) == l.orders + seq![
                Order::DestroyShaderModule(module),
            ]
            &&& undone(BuildStage::PipelineLayout { module, dsl }) == l.orders + seq![
                Order::DestroySetLayout(dsl),
                Order::DestroyShaderModule(module),
            ]
            &&& undone(BuildStage::Pipeline { module, dsl, layout }) == l.orders + seq![
                Order::DestroyPipelineLayout(layout),
                Order::DestroySetLayout(dsl),
                Order::DestroyShaderModule(module),
            ]
            &&& undone(BuildStage::Pool { module, dsl, layout, pipeline }) == l.orders + seq![
                Order::DestroyPipeline(pipeline),
                Order::DestroyPipelineLayout(layout),
                Order::DestroySetLayout(dsl),
                Order::DestroyShaderModule(module),
            ]
            &&& undone(BuildStage::Sets { module, dsl, layout, pipeline, pool }) == l.orders + seq![
                Order::DestroyDescriptorPool(pool),
                Order::DestroyPipeline(pipeline),
                Order::DestroyPipelineLayout(layout),
                Order::DestroySetLayout(dsl),
                Order::DestroyShaderModule(module),
            ]
        }),
{
    law_destroyed_objects_are_counted(l, BuildStage::Module.unwinding());
    law_destroyed_objects_are_counted(l, BuildStage::SetLayout { module }.unwinding());
    law_destroyed_objects_are_counted(l, BuildStage::PipelineLayout { module, dsl }.unwinding());
    law_destroyed_objects_are_counted(l, BuildStage::Pipeline { module, dsl, layout }.unwinding());
    law_destroyed_objects_are_counted(
        l,
        BuildStage::Pool { module, dsl, layout, pipeline }.unwinding(),
    );
    law_destroyed_objects_are_counted(
        l,
        BuildStage::Sets { module, dsl, layout, pipeline, pool }.unwinding(),
    );
    assert(l.orders + Seq::<Order>::empty() =~= l.orders);
}

} // verus!
