//! A context driven by a scripted driver: what it asks for, what it queues, and
//! what it keeps account of when calls fail.

use std::collections::BTreeSet;

use alelyon_compute_kit::batch::{Access, BarrierRule, FlushReason};
use alelyon_compute_kit::context::flush::FlushNext;
use alelyon_compute_kit::context::record::DispatchNext;
use alelyon_compute_kit::context::retire::{AbandonNext, ReleaseNext};
use alelyon_compute_kit::context::timed::TimedNext;
use alelyon_compute_kit::context::transfer::{BufferNext, DownloadNext, UploadNext};
use alelyon_compute_kit::context::{
    BarrierMode, Buffer, Context, DescriptorMode, PoolMode, TuningTexts,
};
use alelyon_compute_kit::device::{
    select_device, Candidate, CoopmatRow, DeviceFacts, Features, Heap, Limits, QueueFamily,
};
use alelyon_compute_kit::driver::{Call, Reply};
use alelyon_compute_kit::error::AckError;
use alelyon_compute_kit::faults::{CreateStep, Fault, Faults};
use alelyon_compute_kit::kernel::{BuildNext, Kernel};
use alelyon_compute_kit::ledger::Order;

const OUT_OF_HOST_MEMORY: i32 = -1;
const OUT_OF_DEVICE_MEMORY: i32 = -2;
const DEVICE_LOST: i32 = -4;
const UNKNOWN: i32 = -13;

fn facts() -> DeviceFacts {
    DeviceFacts {
        device_name: "Test Device".into(),
        driver_name: "driver".into(),
        driver_info: "info".into(),
        api_version_raw: (1 << 22) | (4 << 12) | 341,
        driver_version_raw: 7,
        vendor_id: 0x1002,
        device_id: 0x7550,
        device_type: 2,
        driver_id: 3,
        device_uuid: [1; 16],
        driver_uuid: [2; 16],
        subgroup_size: 64,
        timestamp_period_bits: 10.0f32.to_bits(),
        max_workgroup_invocations: 1024,
        max_workgroup_size: [1024, 1024, 64],
        limits: Limits {
            max_storage_buffer_bytes: 1 << 30,
            max_workgroup_count: [65_535, 65_535, 65_535],
            max_push_constant_bytes: 128,
        },
        extensions: vec![
            "VK_KHR_cooperative_matrix".into(),
            "VK_KHR_shader_bfloat16".into(),
        ],
        features: Features {
            bf16_type: true,
            bf16_dot_product: true,
            bf16_cooperative_matrix: true,
            cooperative_matrix: true,
            shader_int16: true,
            storage_buffer_16bit: true,
            shader_float16: true,
            shader_int8: false,
            memory_model: true,
            memory_model_device_scope: true,
            host_query_reset: true,
            subgroup_size_control: true,
            compute_full_subgroups: true,
        },
        coopmat_rows: vec![CoopmatRow {
            m: 16,
            n: 16,
            k: 16,
            a_type: 1_000_141_000,
            b_type: 1_000_141_000,
            c_type: 1,
            result_type: 1,
            scope: 3,
            saturating: false,
        }],
        heaps: vec![
            Heap { flags: 0, size: 1 << 34 },
            Heap { flags: 1, size: 1 << 33 },
            Heap { flags: 1, size: 1 << 20 },
        ],
        memory_types: vec![1, 6, 14],
        families: vec![
            QueueFamily { flags: 7, timestamp_valid_bits: 64 },
            QueueFamily { flags: 6, timestamp_valid_bits: 48 },
        ],
    }
}

fn texts() -> TuningTexts {
    TuningTexts {
        async_flush: None,
        batch_ramp: None,
        deferred_upload: None,
        dispatch_timestamps: None,
        max_recorded_items: None,
        max_retired_bytes: None,
        sets_per_kernel_pool: Some("4".into()),
        buffer_pool: None,
        buffer_pool_bytes: None,
        barriers: None,
    }
}

fn open_with(texts: &TuningTexts) -> Context {
    Context::open_on(facts().plan().unwrap(), texts, 11)
}

/// A driver that makes every object it is asked for, except where it is told to
/// fail, and checks that nothing is destroyed twice.
struct Driver {
    next: u64,
    live: BTreeSet<u64>,
    calls: Vec<Call>,
    orders: Vec<Order>,
    /// Fail the calls for which this says so.
    fails: fn(&Call) -> Option<i32>,
    type_bits: u32,
}

fn never(_: &Call) -> Option<i32> {
    None
}

impl Driver {
    fn new() -> Self {
        Driver {
            next: 100,
            live: BTreeSet::new(),
            calls: Vec::new(),
            orders: Vec::new(),
            fails: never,
            type_bits: 7,
        }
    }

    fn make(&mut self) -> u64 {
        self.next += 1;
        self.live.insert(self.next);
        self.next
    }

    fn answer(&mut self, call: &Call) -> Reply {
        self.calls.push(*call);
        if let Some(code) = (self.fails)(call) {
            return Reply::Failed(code);
        }
        match call {
            Call::CreateBuffer { bytes, .. } => Reply::Buffer {
                buffer: self.make(),
                size: *bytes,
                type_bits: self.type_bits,
            },
            Call::AllocateMemory { .. }
            | Call::CreateQueryPool { .. }
            | Call::AllocateCommandBuffer
            | Call::CreateFence
            | Call::CreateShaderModule
            | Call::CreateSetLayout { .. }
            | Call::CreatePipelineLayout { .. }
            | Call::CreatePipeline { .. }
            | Call::CreateDescriptorPool { .. } => Reply::Handle(self.make()),
            Call::ReadStamps { count, .. } => Reply::Span {
                sum: 10 * u64::from(*count - 1),
                min: 10,
                max: 10,
            },
            _ => Reply::Done,
        }
    }

    fn obey(&mut self, context: &mut Context) {
        for order in context.take_orders() {
            if let Order::DestroyBuffer(h)
            | Order::FreeMemory(h)
            | Order::DestroyShaderModule(h)
            | Order::DestroySetLayout(h)
            | Order::DestroyPipelineLayout(h)
            | Order::DestroyPipeline(h)
            | Order::DestroyDescriptorPool(h)
            | Order::DestroyFence(h)
            | Order::FreeCommandBuffer(h)
            | Order::DestroyQueryPool(h) = order
            {
                assert!(self.live.remove(&h), "{order:?} names nothing live");
            }
            self.orders.push(order);
        }
        assert_eq!(context.live_objects(), self.live.len() as i64);
    }

    fn count(&self, pick: fn(&Order) -> bool) -> usize {
        self.orders.iter().filter(|o| pick(o)).count()
    }

    fn flushed(&mut self, c: &mut Context, mut next: FlushNext) -> Result<(), AckError> {
        loop {
            self.obey(c);
            match next {
                FlushNext::Pending(f) => {
                    let reply = self.answer(&f.call());
                    next = c.advance_flush(f, reply);
                }
                FlushNext::Finished => return Ok(()),
                FlushNext::Refused(e) => return Err(e),
            }
        }
    }

    fn sync(&mut self, c: &mut Context) -> Result<(), AckError> {
        let next = c.sync();
        self.flushed(c, next)
    }

    fn buffer(&mut self, c: &mut Context, bytes: u64) -> Result<Buffer, AckError> {
        let mut next = c.buffer(bytes);
        loop {
            self.obey(c);
            match next {
                BufferNext::Pending(b) => {
                    let reply = self.answer(&b.call());
                    next = c.advance_buffer(b, reply);
                }
                BufferNext::Ready(b) => return Ok(b),
                BufferNext::Refused(e) => return Err(e),
            }
        }
    }

    fn upload(&mut self, c: &mut Context, dst: &Buffer, data: &[u8]) -> Result<(), AckError> {
        let mut next = c.upload(dst, data);
        loop {
            self.obey(c);
            match next {
                UploadNext::Pending(u) => {
                    match u.call() {
                        Call::WriteMemory { bytes, .. } => {
                            assert_eq!(u.payload(), data);
                            assert_eq!(bytes, data.len() as u64);
                        }
                        _ => assert!(u.payload().is_empty()),
                    }
                    let reply = self.answer(&u.call());
                    next = c.advance_upload(u, reply);
                }
                UploadNext::Finished => return Ok(()),
                UploadNext::Refused(e) => return Err(e),
            }
        }
    }

    fn download(&mut self, c: &mut Context, src: &Buffer) -> Result<(), AckError> {
        let mut next = c.download(src);
        loop {
            self.obey(c);
            match next {
                DownloadNext::Pending(d) => {
                    let reply = self.answer(&d.call());
                    next = c.advance_download(d, reply);
                }
                DownloadNext::Finished => return Ok(()),
                DownloadNext::Refused(e) => return Err(e),
            }
        }
    }

    fn kernel(&mut self, c: &mut Context, buffers: u32) -> Result<Kernel, AckError> {
        let mut build = c.kernel(&SPIRV, buffers, 8)?;
        loop {
            let reply = self.answer(&build.call());
            let next = c.advance_kernel(build, reply);
            self.obey(c);
            match next {
                BuildNext::Pending(b) => build = b,
                BuildNext::Built(k) => return Ok(k),
                BuildNext::Refused(e) => return Err(e),
            }
        }
    }

    fn dispatch(
        &mut self,
        c: &mut Context,
        k: &mut Kernel,
        access: &[Access],
    ) -> Result<(), AckError> {
        let mut next = c.dispatch(k, &PUSH, [4, 1, 1], 1, access);
        loop {
            self.obey(c);
            match next {
                DispatchNext::Pending(d) => {
                    let reply = self.answer(&d.call());
                    next = c.advance_dispatch(k, d, reply);
                }
                DispatchNext::Recorded => return Ok(()),
                DispatchNext::Refused(e) => return Err(e),
            }
        }
    }

    fn dispatch_timed(&mut self, c: &mut Context, k: &mut Kernel) -> Result<(), AckError> {
        let mut next = c.dispatch_timed(k, &PUSH, [4, 1, 1], 3);
        loop {
            self.obey(c);
            match next {
                TimedNext::Pending(t) => {
                    let reply = self.answer(&t.call());
                    next = c.advance_timed(k, t, reply);
                }
                TimedNext::Finished => return Ok(()),
                TimedNext::Refused(e) => return Err(e),
            }
        }
    }

    fn release(&mut self, c: &mut Context, b: Buffer) -> Result<(), AckError> {
        let mut next = c.release_buffer(b);
        loop {
            self.obey(c);
            match next {
                ReleaseNext::Pending(p) => {
                    let reply = self.answer(&p.call());
                    next = c.advance_release(p, reply);
                }
                ReleaseNext::Finished => return Ok(()),
                ReleaseNext::Refused(e) => return Err(e),
            }
        }
    }

    fn discard(&mut self, c: &mut Context) {
        let mut next = c.discard_recorded_batch();
        loop {
            self.obey(c);
            match next {
                AbandonNext::Pending(a) => {
                    let reply = self.answer(&a.call());
                    next = c.advance_abandon(a, reply);
                }
                AbandonNext::Finished => return,
            }
        }
    }
}

/// The push block of every dispatch here.
const PUSH: [u8; 8] = [1, 2, 3, 4, 5, 6, 7, 8];

/// The magic number and one more word.
const SPIRV: [u8; 8] = [0x03, 0x02, 0x23, 0x07, 1, 0, 0, 0];

fn is_barrier(o: &Order) -> bool {
    matches!(o, Order::Barrier { .. })
}

fn is_launch(o: &Order) -> bool {
    matches!(o, Order::Launch { .. })
}

/// A context with a kernel of two bindings and two buffers bound to it.
fn ready(texts: &TuningTexts) -> (Driver, Context, Kernel, Buffer, Buffer) {
    let mut driver = Driver::new();
    let mut context = open_with(texts);
    let mut kernel = driver.kernel(&mut context, 2).unwrap();
    let a = driver.buffer(&mut context, 64).unwrap();
    let b = driver.buffer(&mut context, 64).unwrap();
    context.bind(&mut kernel, &[&a, &b]).unwrap();
    (driver, context, kernel, a, b)
}

#[test]
fn a_device_is_opened_as_it_declares_itself() {
    let plan = facts().plan().unwrap();
    assert_eq!(plan.queue_family, 1, "a family that only computes is preferred");
    assert_eq!(plan.timestamp_valid_bits, 48);
    assert_eq!(plan.report.api_version, "1.4.341");
    assert_eq!(plan.report.device_local_bytes, 1 << 33);
    assert_eq!(plan.report.coopmat_shapes[0].a_type, "bfloat16");
    assert_eq!(plan.report.coopmat_shapes[0].result_type, "float32");
    assert_eq!(plan.report.coopmat_shapes[0].scope, "subgroup");
    assert!(plan.enabled.subgroup_size_control && plan.enabled.compute_full_subgroups);
    let bytes = plan.report.identity_bytes();
    assert_eq!(bytes.len(), 48);
    assert_eq!(&bytes[..8], &[0x02, 0x10, 0, 0, 0x50, 0x75, 0, 0]);

    let mut no_control = facts();
    no_control.features.compute_full_subgroups = false;
    let plan = no_control.plan().unwrap();
    assert!(!plan.enabled.subgroup_size_control);

    let mut bare = facts();
    bare.extensions = vec!["VK_KHR_shader_bfloat16".into()];
    let plan = bare.plan().unwrap();
    assert!(!plan.report.bf16_type && !plan.report.cooperative_matrix);
    assert!(plan.report.coopmat_shapes.is_empty());
}

#[test]
fn a_device_that_cannot_be_used_is_refused_by_name() {
    let refusal = |change: fn(&mut DeviceFacts)| {
        let mut f = facts();
        change(&mut f);
        f.plan().unwrap_err().message()
    };
    assert_eq!(
        refusal(|f| f.families = vec![QueueFamily { flags: 1, timestamp_valid_bits: 64 }]),
        "no usable device: no compute queue family"
    );
    assert_eq!(
        refusal(|f| f.families[1].timestamp_valid_bits = 0),
        "unsupported: compute queue has no timestamp support"
    );
    assert!(refusal(|f| f.features.shader_int16 = false).contains("shaderInt16"));
    assert!(refusal(|f| f.features.storage_buffer_16bit = false)
        .contains("storageBuffer16BitAccess"));
}

#[test]
fn the_best_device_is_the_first_of_the_highest_rank() {
    let candidate = |discrete: bool, extensions: &[&str], flags: u32| Candidate {
        discrete,
        extensions: extensions.iter().map(|e| e.to_string()).collect(),
        families: vec![QueueFamily { flags, timestamp_valid_bits: 64 }],
    };
    let both = ["VK_KHR_cooperative_matrix", "VK_KHR_shader_bfloat16"];
    // no device with cooperative matrices computes: the first best of the rest
    let mut devices = vec![
        candidate(false, &both[1..], 2),
        candidate(true, &[], 3),
        candidate(true, &both[..1], 1),
        candidate(true, &both[1..], 2),
        candidate(true, &both[1..], 2),
    ];
    assert_eq!(select_device(&devices).unwrap(), 3);
    // any device with cooperative matrices comes before one without
    devices.push(candidate(false, &both[..1], 2));
    assert_eq!(select_device(&devices).unwrap(), 5);
    devices.push(candidate(false, &both, 2));
    assert_eq!(select_device(&devices).unwrap(), 6);
    // and the first discrete one with bf16 before all of them
    devices.push(candidate(true, &both[..1], 2));
    assert_eq!(select_device(&devices).unwrap(), 7);
    devices.push(candidate(true, &both, 3));
    devices.push(candidate(true, &both, 2));
    assert_eq!(select_device(&devices).unwrap(), 8);
    assert_eq!(
        select_device(&Vec::new()).unwrap_err().message(),
        "no usable device: no Vulkan physical devices"
    );
    assert_eq!(
        select_device(&vec![candidate(true, &both, 1)])
            .unwrap_err()
            .message(),
        "no usable device: no compute-capable device"
    );
}

#[test]
fn a_fresh_context_is_tuned_by_its_texts() {
    let mut t = texts();
    let c = open_with(&t);
    assert_eq!((c.id(), c.queue_family(), c.live_objects()), (11, 1, 0));
    assert_eq!(c.max_recorded_items(), 128);
    assert_eq!(c.max_retired_bytes(), 1 << 30);
    assert_eq!(c.sets_per_kernel_pool(), 4);
    assert!(c.batch_ramp() && !c.deferred_upload() && c.buffer_pool_enabled());
    assert_eq!(c.flushes(), 0);
    t.max_recorded_items = Some(" 3 ".into());
    t.max_retired_bytes = Some("zero".into());
    t.buffer_pool = Some("0".into());
    let c = open_with(&t);
    assert_eq!(c.max_recorded_items(), 3);
    assert_eq!(c.max_retired_bytes(), 1 << 30);
    assert!(!c.buffer_pool_enabled());
}

#[test]
fn a_buffer_is_rounded_up_and_its_refusals_are_named() {
    let mut driver = Driver::new();
    let mut c = open_with(&texts());
    let b = driver.buffer(&mut c, 61).unwrap();
    assert_eq!(b.size(), 61);
    assert!(driver
        .calls
        .iter()
        .any(|call| matches!(call, Call::CreateBuffer { bytes: 64, .. })));
    assert!(driver.buffer(&mut c, 0).is_err());
    assert!(driver.buffer(&mut c, (1 << 30) + 1).is_err());
    driver.type_bits = 0;
    let e = driver.buffer(&mut c, 8).unwrap_err().message();
    assert_eq!(e, "unsupported: no memory type with DEVICE_LOCAL");
    assert_eq!(c.live_objects(), 2, "a refused buffer leaves nothing behind");
}

#[test]
fn a_failed_creation_leaves_nothing_behind() {
    for fails in [
        (|c: &Call| matches!(c, Call::CreateBuffer { .. }).then_some(UNKNOWN)) as fn(&Call) -> Option<i32>,
        |c| matches!(c, Call::AllocateMemory { .. }).then_some(UNKNOWN),
        |c| matches!(c, Call::BindMemory { .. }).then_some(UNKNOWN),
    ] {
        let mut driver = Driver::new();
        let mut c = open_with(&texts());
        driver.fails = fails;
        let e = driver.buffer(&mut c, 8).unwrap_err();
        assert_eq!(e.message(), "vulkan call failed: ERROR_UNKNOWN");
        assert_eq!(c.live_objects(), 0);
    }
    for fails in [
        (|c: &Call| matches!(c, Call::CreateShaderModule).then_some(UNKNOWN)) as fn(&Call) -> Option<i32>,
        |c| matches!(c, Call::CreateSetLayout { .. }).then_some(UNKNOWN),
        |c| matches!(c, Call::CreatePipelineLayout { .. }).then_some(UNKNOWN),
        |c| matches!(c, Call::CreatePipeline { .. }).then_some(UNKNOWN),
        |c| matches!(c, Call::CreateDescriptorPool { .. }).then_some(UNKNOWN),
        |c| matches!(c, Call::AllocateSets { .. }).then_some(UNKNOWN),
    ] {
        let mut driver = Driver::new();
        let mut c = open_with(&texts());
        driver.fails = fails;
        assert!(driver.kernel(&mut c, 2).is_err());
        assert_eq!(c.live_objects(), 0);
    }
}

#[test]
fn a_kernel_is_built_from_the_words_of_its_binary() {
    let mut driver = Driver::new();
    let mut c = open_with(&texts());
    let build = c.kernel(&SPIRV, 2, 8).unwrap();
    assert_eq!(build.words(), &[0x0723_0203, 1]);
    let swapped = [0x07, 0x23, 0x02, 0x03, 0, 0, 0, 1];
    let build = c.kernel(&swapped, 2, 8).unwrap();
    assert_eq!(build.words(), &[0x0723_0203, 1], "either byte order is read");
    assert_eq!(
        c.kernel(&SPIRV[..7], 2, 8).unwrap_err().message(),
        "io: input length not divisible by 4"
    );
    assert_eq!(
        c.kernel(&[0; 8], 2, 8).unwrap_err().message(),
        "io: input missing SPIR-V magic number"
    );
    assert!(c.kernel(&SPIRV, 2, 6).is_err(), "a push range of whole words");
    assert!(c.kernel(&SPIRV, 2, 132).is_err(), "within the device's limit");
    let kernel = driver.kernel(&mut c, 2).unwrap();
    assert_eq!(kernel.descriptor_sets(), 4);
    assert!(
        driver.calls.contains(&Call::CreateDescriptorPool { sets: 8, descriptors: 16 }),
        "two banks of four sets"
    );
    assert_eq!(c.live_objects(), 4);
    c.destroy_kernel(kernel);
    driver.obey(&mut c);
    assert_eq!(c.live_objects(), 0);
}

#[test]
fn a_dispatch_is_checked_before_anything_is_recorded() {
    let (mut driver, mut c, mut k, a, b) = ready(&texts());
    let access = [Access::read(a.id()), Access::write(b.id())];
    let refused = |c: &mut Context, k: &mut Kernel, push: &[u8], groups, repeats, access: &[Access]| {
        match c.dispatch(k, push, groups, repeats, access) {
            DispatchNext::Refused(e) => e.message(),
            other => panic!("accepted: {other:?}"),
        }
    };
    for (push, groups, repeats) in [
        (&[0u8; 12][..], [1, 1, 1], 1),
        (&[0; 6][..], [1, 1, 1], 1),
        (&[0; 8][..], [0, 1, 1], 1),
        (&[0; 8][..], [65_536, 1, 1], 1),
        (&[0; 8][..], [1, 1, 1], 0),
    ] {
        let text = refused(&mut c, &mut k, push, groups, repeats, &access);
        assert!(text.starts_with("unsupported: "), "{text}");
    }
    let text = refused(&mut c, &mut k, &[0; 8], [1, 1, 1], 1, &access[..1]);
    assert!(text.contains("declare"), "{text}");
    driver.release(&mut c, b).unwrap();
    let text = refused(&mut c, &mut k, &[0; 8], [1, 1, 1], 1, &access);
    assert!(text.starts_with("freed resource: "), "{text}");
    assert_eq!(c.recorded_items(), 0);
    let mut other = Context::open_on(facts().plan().unwrap(), &texts(), 12);
    let text = refused(&mut other, &mut k, &[0; 8], [1, 1, 1], 1, &access);
    assert!(text.starts_with("foreign resource: "), "{text}");
}

#[test]
fn dependent_dispatches_are_separated_and_independent_ones_are_not() {
    let (mut driver, mut c, mut k, a, b) = ready(&texts());
    let forward = [Access::read(a.id()), Access::write(b.id())];
    driver.dispatch(&mut c, &mut k, &forward).unwrap();
    let first = driver.count(is_barrier);
    assert_eq!(first, 1, "one barrier against the batch before");
    driver.dispatch(&mut c, &mut k, &forward).unwrap();
    assert_eq!(driver.count(is_barrier), first + 1);
    assert_eq!((c.recorded_items(), c.recorded_barriers()), (2, 1));

    let x = driver.buffer(&mut c, 64).unwrap();
    let y = driver.buffer(&mut c, 64).unwrap();
    c.bind(&mut k, &[&x, &y]).unwrap();
    let apart = [Access::read(x.id()), Access::write(y.id())];
    driver.dispatch(&mut c, &mut k, &apart).unwrap();
    assert_eq!(driver.count(is_barrier), first + 1, "nothing is shared");
    assert_eq!(c.recorded_barriers(), 1);

    let mut t = texts();
    t.barriers = Some("always".into());
    let (mut driver, mut c, mut k, a, b) = ready(&t);
    let access = [Access::read(a.id()), Access::read(b.id())];
    for _ in 0..3 {
        driver.dispatch(&mut c, &mut k, &access).unwrap();
    }
    assert_eq!(c.recorded_barriers(), 2, "one between every adjacent pair");
    c.set_barrier_rule(BarrierRule::Declared);
    driver.sync(&mut c).unwrap();
    for _ in 0..3 {
        driver.dispatch(&mut c, &mut k, &access).unwrap();
    }
    assert_eq!(c.recorded_barriers(), 0);
}

#[test]
fn a_readback_completes_everything_recorded_before_it() {
    let (mut driver, mut c, mut k, a, b) = ready(&texts());
    let access = [Access::read(a.id()), Access::write(b.id())];
    driver.upload(&mut c, &a, &[1; 64]).unwrap();
    driver.dispatch(&mut c, &mut k, &access).unwrap();
    driver.download(&mut c, &b).unwrap();
    assert_eq!((c.recorded_items(), c.batches_in_flight()), (0, 0));
    assert_eq!(c.flushes_by_reason()[0], 1, "one readback flush");
    let launched = driver.orders.iter().position(is_launch).unwrap();
    let copied = driver
        .orders
        .iter()
        .rposition(|o| matches!(o, Order::Copy { source, .. } if *source == b.buffer))
        .unwrap();
    assert!(launched < copied);
    assert!(matches!(
        driver.calls.last(),
        Some(Call::ReadMemory { bytes: 64, coherent: true, .. })
    ));
    assert!(driver.upload(&mut c, &a, &[1; 63]).is_err(), "exactly the buffer's size");
}

#[test]
fn a_full_batch_goes_in_flight_and_the_next_waits_for_it() {
    let mut t = texts();
    t.max_recorded_items = Some("2".into());
    let (mut driver, mut c, mut k, a, b) = ready(&t);
    let access = [Access::read(a.id()), Access::write(b.id())];
    for _ in 0..2 {
        driver.dispatch(&mut c, &mut k, &access).unwrap();
    }
    assert_eq!((c.recorded_items(), c.batches_in_flight()), (0, 1));
    assert!(!driver.calls.iter().any(|call| matches!(call, Call::WaitFence { .. })));
    let mut sets: Vec<u32> = Vec::new();
    for _ in 0..2 {
        driver.dispatch(&mut c, &mut k, &access).unwrap();
    }
    for order in &driver.orders {
        if let Order::BindKernel { set, .. } = order {
            sets.push(*set);
        }
    }
    assert_eq!(sets, [0, 1, 4, 5], "the second batch takes the other bank");
    let waits = driver
        .calls
        .iter()
        .filter(|call| matches!(call, Call::WaitFence { .. }))
        .count();
    assert_eq!(waits, 1, "the second submission waits for the first batch");
    assert_eq!(c.batches_in_flight(), 1);
    assert_eq!(c.flushes_by_reason()[5], 2);
    driver.sync(&mut c).unwrap();
    assert_eq!(c.batches_in_flight(), 0);
}

#[test]
fn an_exhausted_arena_flushes_and_goes_on() {
    let (mut driver, mut c, mut k, a, b) = ready(&texts());
    let access = [Access::read(a.id()), Access::write(b.id())];
    for _ in 0..4 {
        driver.dispatch(&mut c, &mut k, &access).unwrap();
    }
    assert_eq!(c.descriptor_watermark(&k), 4);
    driver.dispatch(&mut c, &mut k, &access).unwrap();
    assert_eq!(c.flushes_by_reason()[6], 1);
    assert_eq!((c.recorded_items(), c.descriptor_watermark(&k)), (1, 1));
}

#[test]
fn a_freed_buffer_waits_for_the_batch_and_is_then_reused() {
    let (mut driver, mut c, mut k, a, b) = ready(&texts());
    let access = [Access::read(a.id()), Access::write(b.id())];
    driver.dispatch(&mut c, &mut k, &access).unwrap();
    let raw = b.buffer;
    driver.release(&mut c, b).unwrap();
    assert_eq!(driver.count(|o| matches!(o, Order::DestroyBuffer(_))), 0);
    assert_eq!(c.pooled_objects(), 0, "the batch may still name it");
    driver.sync(&mut c).unwrap();
    assert_eq!(c.pooled_objects(), 2);
    let again = driver.buffer(&mut c, 62).unwrap();
    assert_eq!(again.buffer, raw, "served from the pool by its rounded size");
    let stats = c.pool_stats();
    assert_eq!((stats.hits, stats.misses, stats.returns), (1, 2, 1));
    driver.release(&mut c, again).unwrap();
    c.set_buffer_pool_enabled(false);
    driver.obey(&mut c);
    assert_eq!(c.pooled_objects(), 0);
    assert!(driver.orders.contains(&Order::DestroyBuffer(raw)));
}

#[test]
fn retired_bytes_over_the_budget_flush() {
    let mut t = texts();
    t.max_retired_bytes = Some("63".into());
    let (mut driver, mut c, mut k, a, b) = ready(&t);
    let access = [Access::read(a.id()), Access::write(b.id())];
    driver.dispatch(&mut c, &mut k, &access).unwrap();
    driver.release(&mut c, a).unwrap();
    let flushed = c.flushes_by_reason()[7];
    assert_eq!(flushed, 1);
    assert_eq!(c.recorded_items(), 0);
}

#[test]
fn an_allocation_that_fails_reclaims_the_pool_and_is_tried_again() {
    fn large(call: &Call) -> Option<i32> {
        matches!(call, Call::AllocateMemory { size: 128, .. }).then_some(OUT_OF_DEVICE_MEMORY)
    }
    let mut driver = Driver::new();
    let mut c = open_with(&texts());
    let b = driver.buffer(&mut c, 64).unwrap();
    driver.release(&mut c, b).unwrap();
    assert_eq!(c.pooled_objects(), 2);
    driver.fails = large;
    assert!(driver.buffer(&mut c, 128).is_err());
    let tries = driver
        .calls
        .iter()
        .filter(|call| matches!(call, Call::AllocateMemory { size: 128, .. }))
        .count();
    assert_eq!(tries, 2);
    assert_eq!((c.pool_stats().reclaims, c.live_objects()), (1, 0));
}

#[test]
fn a_failed_wait_on_a_quiesced_device_releases_and_reports() {
    let (mut driver, mut c, mut k, a, b) = ready(&texts());
    let access = [Access::read(a.id()), Access::write(b.id())];
    driver.dispatch(&mut c, &mut k, &access).unwrap();
    driver.fails = |call| matches!(call, Call::WaitFence { .. }).then_some(UNKNOWN);
    let e = driver.sync(&mut c).unwrap_err();
    assert_eq!(e.message(), "vulkan call failed: ERROR_UNKNOWN");
    assert!(!c.is_poisoned());
    assert_eq!((c.leaked_on_poison(), c.live_objects()), (0, 8));
}

#[test]
fn a_failed_wait_on_a_device_of_unknown_state_poisons_and_leaks() {
    let (mut driver, mut c, mut k, a, b) = ready(&texts());
    let access = [Access::read(a.id()), Access::write(b.id())];
    driver.dispatch(&mut c, &mut k, &access).unwrap();
    driver.fails = |call| match call {
        Call::WaitFence { .. } => Some(UNKNOWN),
        Call::WaitIdle => Some(OUT_OF_HOST_MEMORY),
        _ => None,
    };
    let e = driver.sync(&mut c).unwrap_err().message();
    assert!(e.starts_with("poisoned context: "), "{e}");
    assert!(e.contains("ERROR_UNKNOWN") && e.contains("ERROR_OUT_OF_HOST_MEMORY"), "{e}");
    assert!(c.is_poisoned() && !c.may_tear_down());
    assert_eq!(c.leaked_on_poison(), 2, "the fence and the command buffer");
    let live = c.live_objects();
    let again = driver.sync(&mut c).unwrap_err().message();
    assert_eq!(again, e, "the first poison is the one that is told");
    assert!(driver.buffer(&mut c, 8).is_err());
    assert!(driver.release(&mut c, b).is_err());
    assert_eq!((c.leaked_on_poison(), c.live_objects()), (4, live));
}

#[test]
fn a_lost_device_is_poisoned_and_may_be_torn_down() {
    let (mut driver, mut c, mut k, a, b) = ready(&texts());
    let access = [Access::read(a.id()), Access::write(b.id())];
    driver.dispatch(&mut c, &mut k, &access).unwrap();
    driver.fails = |call| matches!(call, Call::WaitFence { .. }).then_some(DEVICE_LOST);
    let e = driver.sync(&mut c).unwrap_err().message();
    assert_eq!(e, "vulkan call failed: ERROR_DEVICE_LOST");
    assert!(c.is_poisoned() && c.may_tear_down());
    assert_eq!(c.leaked_on_poison(), 0);
    assert_eq!(c.submissions_torn_down(), 1);
    driver.fails = never;
    driver.release(&mut c, a).unwrap();
    driver.discard(&mut c);
    c.drain();
    driver.obey(&mut c);
    assert_eq!(c.live_objects(), 6, "a kernel and a buffer are still held");
}

#[test]
fn a_batch_lost_at_its_submission_poisons() {
    let (mut driver, mut c, mut k, a, b) = ready(&texts());
    let access = [Access::read(a.id()), Access::write(b.id())];
    driver.dispatch(&mut c, &mut k, &access).unwrap();
    driver.fails = |call| matches!(call, Call::Submit { .. }).then_some(OUT_OF_HOST_MEMORY);
    let e = driver.sync(&mut c).unwrap_err().message();
    assert!(e.starts_with("deferred batch: flush ("), "{e}");
    assert!(e.contains("queue_submit: ERROR_OUT_OF_HOST_MEMORY"), "{e}");
    assert!(e.contains("none of its operations ran"), "{e}");
    assert!(c.is_poisoned());
    assert_eq!((c.leaked_on_poison(), c.live_objects()), (0, 8));
}

#[test]
fn a_discarded_batch_never_runs() {
    let (mut driver, mut c, mut k, a, b) = ready(&texts());
    let access = [Access::read(a.id()), Access::write(b.id())];
    driver.dispatch(&mut c, &mut k, &access).unwrap();
    driver.release(&mut c, a).unwrap();
    driver.discard(&mut c);
    assert!(!driver.calls.iter().any(|call| matches!(call, Call::Submit { .. })));
    assert_eq!((c.recorded_items(), c.pooled_objects()), (0, 2));
    c.drain();
    driver.obey(&mut c);
    assert_eq!(c.live_objects(), 6);
}

#[test]
fn a_timed_dispatch_runs_alone() {
    let (mut driver, mut c, mut k, a, b) = ready(&texts());
    let access = [Access::read(a.id()), Access::write(b.id())];
    driver.dispatch(&mut c, &mut k, &access).unwrap();
    driver.dispatch_timed(&mut c, &mut k).unwrap();
    assert_eq!(c.flushes_by_reason()[2], 1);
    assert_eq!(driver.count(|o| matches!(o, Order::RepeatBarrier { .. })), 2);
    assert_eq!(driver.count(is_launch), 4);
    assert_eq!(driver.count(|o| matches!(o, Order::Stamp { top: true, query: 0, .. })), 1);
    assert_eq!(driver.count(|o| matches!(o, Order::Stamp { top: false, query: 1, .. })), 1);
    assert_eq!(c.live_objects(), 8, "the queries are given back");
}

/// What a dispatch writes into its set, binds and pushes.
fn prepared(orders: &[Order]) -> Vec<Order> {
    orders
        .iter()
        .filter(|o| {
            matches!(
                o,
                Order::WriteBinding { .. } | Order::BindKernel { .. } | Order::PushConstants { .. }
            )
        })
        .copied()
        .collect()
}

#[test]
fn a_dispatch_hands_its_bindings_and_its_push_block_to_the_driver() {
    let (mut driver, mut c, mut k, a, b) = ready(&texts());
    let access = [Access::read(a.id()), Access::write(b.id())];
    let (pipeline, layout, _, pool) = k.objects();
    let expected = |commands: u64, set: u32| {
        vec![
            Order::WriteBinding { pool, set, binding: 0, buffer: a.buffer, bytes: 64 },
            Order::WriteBinding { pool, set, binding: 1, buffer: b.buffer, bytes: 64 },
            Order::BindKernel { commands, pipeline, layout, pool, set },
            Order::PushConstants { commands, layout, at: 0, word: 0x0403_0201 },
            Order::PushConstants { commands, layout, at: 1, word: 0x0807_0605 },
        ]
    };
    let commands = |driver: &Driver| match driver.orders.iter().rev().find(|o| is_launch(o)) {
        Some(Order::Launch { commands, .. }) => *commands,
        _ => panic!("nothing was launched"),
    };
    driver.dispatch(&mut c, &mut k, &access).unwrap();
    assert_eq!(prepared(&driver.orders), expected(commands(&driver), 0));
    let before = driver.orders.len();
    driver.dispatch_timed(&mut c, &mut k).unwrap();
    assert_eq!(prepared(&driver.orders[before..]), expected(commands(&driver), 0));
    // no block, no push
    let before = driver.orders.len();
    assert!(matches!(
        c.dispatch(&mut k, &[], [1, 1, 1], 1, &access),
        DispatchNext::Pending(_)
    ));
    driver.obey(&mut c);
    assert!(!driver.orders[before..].iter().any(|o| matches!(o, Order::PushConstants { .. })));
}

#[test]
fn a_free_on_an_unknown_device_retires_into_the_batch_in_flight() {
    let mut t = texts();
    t.max_recorded_items = Some("1".into());
    let (mut driver, mut c, mut k, a, b) = ready(&t);
    let access = [Access::read(a.id()), Access::write(b.id())];
    driver.dispatch(&mut c, &mut k, &access).unwrap();
    assert_eq!(c.batches_in_flight(), 1);
    driver.fails = |call| matches!(call, Call::Submit { .. }).then_some(OUT_OF_HOST_MEMORY);
    assert!(driver.dispatch(&mut c, &mut k, &access).is_err());
    assert!(c.is_poisoned());
    assert_eq!((c.batches_in_flight(), c.leaked_on_poison()), (1, 0));
    driver.release(&mut c, a).unwrap();
    assert_eq!((c.leaked_on_poison(), c.pooled_objects()), (0, 0));
}

#[test]
fn the_instrument_counts_and_times_what_was_recorded() {
    let mut t = texts();
    t.dispatch_timestamps = Some("1".into());
    let (mut driver, mut c, mut k, a, b) = ready(&t);
    let access = [Access::read(a.id()), Access::write(b.id())];
    for _ in 0..3 {
        driver.dispatch(&mut c, &mut k, &access).unwrap();
    }
    let stats = c.dispatch_stats();
    assert_eq!((stats.items, stats.commands), (3, 3));
    assert_eq!((stats.timed_items, stats.device_ns, stats.min_item_ns), (0, 0, 0));
    assert!(
        c.set_dispatch_timestamps(false).is_err(),
        "not while a batch is open"
    );
    driver.sync(&mut c).unwrap();
    let stats = c.dispatch_stats();
    assert_eq!((stats.timed_flushes, stats.timed_items), (1, 3));
    assert_eq!((stats.device_ns, stats.min_item_ns, stats.max_item_ns), (30, 10, 10));
    assert_eq!((stats.unresolved_flushes, stats.timestamps_enabled), (0, true));
    c.set_dispatch_timestamps(false).unwrap();
}

#[test]
fn a_recorded_upload_flushes_nothing() {
    let mut t = texts();
    t.deferred_upload = Some("1".into());
    let (mut driver, mut c, mut k, a, b) = ready(&t);
    let access = [Access::read(a.id()), Access::write(b.id())];
    driver.upload(&mut c, &a, &[3; 64]).unwrap();
    assert_eq!((c.recorded_items(), c.flushes()), (0, 0));
    assert!(!driver.calls.iter().any(|call| matches!(call, Call::Submit { .. })));
    driver.dispatch(&mut c, &mut k, &access).unwrap();
    let copied = driver.orders.iter().position(|o| matches!(o, Order::Copy { .. })).unwrap();
    let launched = driver.orders.iter().position(is_launch).unwrap();
    assert!(driver.orders[copied..launched].iter().any(is_barrier));
    let live = c.live_objects();
    driver.sync(&mut c).unwrap();
    assert_eq!(c.live_objects(), live - 4, "staging, fence and commands are gone");
    assert_eq!(c.flushes_by_reason()[4], 1);
}

#[test]
fn readback_falls_back_to_what_memory_there_is() {
    let mut f = facts();
    f.memory_types = vec![1, 6];
    let mut c = Context::open_on(f.plan().unwrap(), &texts(), 1);
    let mut driver = Driver::new();
    driver.type_bits = 3;
    let b = driver.buffer(&mut c, 16).unwrap();
    driver.download(&mut c, &b).unwrap();
    assert!(driver
        .calls
        .iter()
        .any(|call| matches!(call, Call::AllocateMemory { type_index: 1, size: 16 })));
    f = facts();
    f.memory_types = vec![1, 10];
    let mut c = Context::open_on(f.plan().unwrap(), &texts(), 2);
    let mut driver = Driver::new();
    driver.type_bits = 3;
    let b = driver.buffer(&mut c, 16).unwrap();
    driver.download(&mut c, &b).unwrap();
    assert!(matches!(
        driver.calls.last(),
        Some(Call::ReadMemory { coherent: false, .. })
    ));
}

#[test]
fn faults_stand_in_for_the_calls_they_wait_for() {
    let mut faults = Faults::new();
    faults.inject_fault(Fault::CreateFails(CreateStep::Memory, UNKNOWN));
    faults.inject_fault(Fault::WaitFails(DEVICE_LOST));
    faults.inject_fault(Fault::CreateFails(CreateStep::MemoryType, OUT_OF_DEVICE_MEMORY));
    assert_eq!(faults.armed_faults(), 3);
    let memory = Call::AllocateMemory { size: 4, type_index: 0 };
    assert_eq!(faults.before(&Call::CreateFence), None);
    assert_eq!(faults.after(&Call::CreateFence, Reply::Handle(5)), Reply::Handle(5));
    assert_eq!(faults.before(&memory), Some(Reply::Failed(OUT_OF_DEVICE_MEMORY)));
    assert_eq!(faults.before(&memory), None);
    assert_eq!(
        faults.after(&memory, Reply::Failed(OUT_OF_HOST_MEMORY)),
        Reply::Failed(OUT_OF_HOST_MEMORY),
        "a creation that failed by itself consumes no fault"
    );
    assert_eq!(faults.armed_faults(), 2);
    assert_eq!(faults.after(&memory, Reply::Handle(5)), Reply::Failed(UNKNOWN));
    let wait = Call::WaitFence { fence: 1 };
    assert_eq!(
        faults.after(&wait, Reply::Failed(UNKNOWN)),
        Reply::Failed(DEVICE_LOST),
        "a wait's fault stands in whatever the wait returned"
    );
    assert_eq!(faults.armed_faults(), 0);
    faults.inject_fault(Fault::IdleFails(UNKNOWN));
    faults.clear_faults();
    assert_eq!(faults.after(&Call::WaitIdle, Reply::Done), Reply::Done);
}

#[test]
fn a_flush_of_nothing_asks_for_nothing() {
    let mut driver = Driver::new();
    let mut c = open_with(&texts());
    driver.sync(&mut c).unwrap();
    let next = c.flush(FlushReason::BatchFull);
    driver.flushed(&mut c, next).unwrap();
    assert!(driver.calls.is_empty());
    assert_eq!(c.flushes(), 0);
}

#[test]
fn the_sabotage_modes_take_away_what_they_say() {
    let (mut driver, mut c, mut k, a, b) = ready(&texts());
    let access = [Access::read(a.id()), Access::write(b.id())];
    c.set_barrier_mode(BarrierMode::NoBarrier);
    c.set_descriptor_mode(DescriptorMode::SingleSet);
    for _ in 0..6 {
        driver.dispatch(&mut c, &mut k, &access).unwrap();
    }
    assert_eq!(driver.count(is_barrier), 0);
    assert_eq!((c.recorded_barriers(), c.dispatch_stats().barriers), (5, 0));
    assert_eq!(driver.count(|o| matches!(o, Order::BindKernel { set: 0, .. })), 6);
    c.set_pool_mode(PoolMode::Immediate);
    driver.release(&mut c, b).unwrap();
    assert_eq!(c.pooled_objects(), 2, "while the batch still names it");
    c.set_pool_mode(PoolMode::Retired);
    c.set_barrier_mode(BarrierMode::All);
    c.set_descriptor_mode(DescriptorMode::Arena);
    driver.release(&mut c, a).unwrap();
    assert_eq!(c.pooled_objects(), 2);
}

#[test]
fn tuning_changes_with_the_next_batch() {
    let mut t = texts();
    t.sets_per_kernel_pool = Some("512".into());
    let (mut driver, mut c, mut k, a, b) = ready(&t);
    let access = [Access::read(a.id()), Access::write(b.id())];
    c.set_max_recorded_items(0);
    assert_eq!(c.max_recorded_items(), 1);
    c.set_max_recorded_items(64);

    // short after a completing flush, then twice as long up to the budget
    driver.sync(&mut c).unwrap();
    for length in [16, 32, 64, 64] {
        let before = c.flushes_by_reason()[5];
        for i in 0..length {
            assert_eq!((c.flushes_by_reason()[5], c.recorded_items()), (before, i));
            driver.dispatch(&mut c, &mut k, &access).unwrap();
        }
        assert_eq!((c.flushes_by_reason()[5], c.recorded_items()), (before + 1, 0));
    }
    driver.sync(&mut c).unwrap();

    // an open batch keeps the budget it was opened with
    c.set_batch_ramp(false);
    c.set_max_recorded_items(3);
    driver.dispatch(&mut c, &mut k, &access).unwrap();
    c.set_max_recorded_items(1);
    driver.dispatch(&mut c, &mut k, &access).unwrap();
    assert_eq!(c.recorded_items(), 2);
    driver.dispatch(&mut c, &mut k, &access).unwrap();
    assert_eq!(c.recorded_items(), 0);
    driver.dispatch(&mut c, &mut k, &access).unwrap();
    assert_eq!(c.recorded_items(), 0);

    c.set_max_retired_bytes(7);
    assert_eq!(c.max_retired_bytes(), 7);
    driver.sync(&mut c).unwrap();
    c.set_deferred_upload(true);
    assert!(c.deferred_upload());
    c.set_dispatch_timestamps(true).unwrap();
    assert!(!c.deferred_upload());

    driver.release(&mut c, a).unwrap();
    assert_eq!(c.pool_stats().held_bytes, 64);
    c.set_buffer_pool_max_bytes(63);
    assert_eq!((c.pool_stats().held_bytes, c.pool_stats().drained), (0, 1));
}
