//! A device behind the boundary, driven by a scripted driver: its kernels, its
//! handles, the work its operators ask for, and its end.

use alelyon_compute_kit::batch::Access;
use alelyon_compute_kit::context::{Context, TuningTexts};
use alelyon_compute_kit::device::{DeviceFacts, Features, Heap, Limits, QueueFamily};
use alelyon_compute_kit::driver::{Call, Reply};
use alelyon_compute_kit::ffi::buffers::{
    ack_buffer_alloc, ack_buffer_free, ack_close, ack_download, ack_inject_fault, ack_upload,
};
use alelyon_compute_kit::ffi::device::end::EndNext;
use alelyon_compute_kit::ffi::device::open::{
    ack_open, every_slot, opening_list, Registry, SlotNext,
};
use alelyon_compute_kit::ffi::device::operate::{Operation, Task};
use alelyon_compute_kit::ffi::device::run::{
    AllocNext, CloseNext, Failed, FreeNext, LaunchNext, ReadNext, WriteNext,
};
use alelyon_compute_kit::ffi::device::{AckDevice, Image, Launch, Slot, Step, SLOTS};
use alelyon_compute_kit::ffi::embedding::ack_embedding;
use alelyon_compute_kit::ffi::identity::device_identity;
use alelyon_compute_kit::ffi::loss::ack_loss;
use alelyon_compute_kit::ffi::matmul::{ack_cast, ack_matmul_bf16, ack_matmul_bf16_z, Product};
use alelyon_compute_kit::ffi::matmul_f32::ack_matmul_f32;
use alelyon_compute_kit::ffi::pointwise::ack_pointwise;
use alelyon_compute_kit::ffi::reason::{Family, Part, Reason, Refusal};
use alelyon_compute_kit::ffi::records::{
    ack_device_info, ack_device_name, ack_dispatch_stats, ack_leaked_on_poison, ack_live_objects,
};
use alelyon_compute_kit::ffi::reduce::ack_reduce;
use alelyon_compute_kit::ffi::rowwise::{ack_rowwise, RowShape};
use alelyon_compute_kit::ffi::vq::{
    ack_vq, ack_vq_schema, vq_admit, vq_plan_code, vq_plan_message, vq_words,
};
use alelyon_compute_kit::ffi::{
    buffer_handle, ACK_ERR_CLOSED, ACK_ERR_FOREIGN, ACK_ERR_FREED, ACK_ERR_LIVE_BUFFERS,
    ACK_ERR_NULL, ACK_ERR_POISONED, ACK_ERR_SHAPE, ACK_ERR_SIZE, ACK_ERR_UNSUPPORTED_OP,
    ACK_ERR_VULKAN,
};
use alelyon_compute_kit::faults::Fault;
use alelyon_compute_kit::ledger::Order;
use alelyon_compute_kit::matmul_ops::{MatmulPlan, MatrixView};
use alelyon_compute_kit::pointwise_ops::{
    PointwiseOp, PointwisePlan, Scalars, Storage, StridedView, FLAG_BF16,
};

const SPIRV: [u8; 8] = [0x03, 0x02, 0x23, 0x07, 1, 0, 0, 0];

fn facts(bf16: bool) -> DeviceFacts {
    DeviceFacts {
        device_name: "Test Device".into(),
        driver_name: "driver".into(),
        driver_info: "info".into(),
        api_version_raw: 4_206_592,
        driver_version_raw: 7,
        vendor_id: 1,
        device_id: 2,
        device_type: 2,
        driver_id: 3,
        device_uuid: [1; 16],
        driver_uuid: [2; 16],
        subgroup_size: 64,
        timestamp_period_bits: 10.0f32.to_bits(),
        max_workgroup_invocations: 1024,
        max_workgroup_size: [1024, 1024, 64],
        limits: Limits {
            max_storage_buffer_bytes: 1 << 30,
            max_workgroup_count: [65_535, 65_535, 65_535],
            max_push_constant_bytes: 128,
        },
        extensions: vec![
            "VK_KHR_cooperative_matrix".into(),
            "VK_KHR_shader_bfloat16".into(),
        ],
        features: Features {
            bf16_type: bf16,
            bf16_dot_product: bf16,
            bf16_cooperative_matrix: bf16,
            cooperative_matrix: bf16,
            shader_int16: true,
            storage_buffer_16bit: true,
            shader_float16: true,
            shader_int8: true,
            memory_model: true,
            memory_model_device_scope: true,
            host_query_reset: true,
            subgroup_size_control: true,
            compute_full_subgroups: true,
        },
        coopmat_rows: Vec::new(),
        heaps: vec![Heap { flags: 1, size: 1 << 33 }],
        memory_types: vec![1, 6, 14],
        families: vec![QueueFamily { flags: 6, timestamp_valid_bits: 64 }],
    }
}

fn texts() -> TuningTexts {
    TuningTexts {
        async_flush: None,
        batch_ramp: None,
        deferred_upload: None,
        dispatch_timestamps: None,
        max_recorded_items: None,
        max_retired_bytes: None,
        sets_per_kernel_pool: None,
        buffer_pool: None,
        buffer_pool_bytes: None,
        barriers: None,
    }
}

/// A driver that makes whatever it is asked for, unless told to fail.
struct Rig {
    next: u64,
    live: usize,
    fails: fn(&Call) -> Option<i32>,
    launches: Vec<[u32; 3]>,
    device: AckDevice,
}

impl Rig {
    fn new(bf16: bool) -> Self {
        let context = Context::open_on(facts(bf16).plan().unwrap(), &texts(), 9);
        Rig {
            next: 0,
            live: 0,
            fails: |_| None,
            launches: Vec::new(),
            device: AckDevice::fresh(context, false),
        }
    }

    /// A device that is open under the first handle of a process.
    fn open(bf16: bool) -> Self {
        let mut rig = Rig::new(bf16);
        while let Some(slot) = rig.device.next_to_build() {
            rig.build(slot).unwrap();
        }
        let mut registry = Registry::new();
        assert_eq!(ack_open(&mut registry, &mut rig.device), Ok(1));
        rig
    }

    fn answer(&mut self, call: &Call) -> Reply {
        if let Some(code) = (self.fails)(call) {
            return Reply::Failed(code);
        }
        let made = |rig: &mut Rig| {
            rig.next += 1;
            rig.live += 1;
            rig.next
        };
        match call {
            Call::CreateBuffer { bytes, .. } => Reply::Buffer {
                buffer: made(self),
                size: *bytes,
                type_bits: 7,
            },
            Call::AllocateMemory { .. }
            | Call::CreateQueryPool { .. }
            | Call::AllocateCommandBuffer
            | Call::CreateFence
            | Call::CreateShaderModule
            | Call::CreateSetLayout { .. }
            | Call::CreatePipelineLayout { .. }
            | Call::CreatePipeline { .. }
            | Call::CreateDescriptorPool { .. } => Reply::Handle(made(self)),
            Call::ReadStamps { .. } => Reply::NoSpan,
            _ => Reply::Done,
        }
    }

    fn obey(&mut self) {
        for order in self.device.take_orders() {
            match order {
                Order::DestroyBuffer(_)
                | Order::FreeMemory(_)
                | Order::DestroyShaderModule(_)
                | Order::DestroySetLayout(_)
                | Order::DestroyPipelineLayout(_)
                | Order::DestroyPipeline(_)
                | Order::DestroyDescriptorPool(_)
                | Order::DestroyFence(_)
                | Order::FreeCommandBuffer(_)
                | Order::DestroyQueryPool(_) => self.live -= 1,
                Order::Launch { x, y, z, .. } => self.launches.push([x, y, z]),
                _ => {}
            }
        }
        assert_eq!(self.device.context().live_objects(), self.live as i64);
    }

    fn build(&mut self, slot: Slot) -> Result<(), Failed> {
        let mut build = self.device.build(slot, &SPIRV)?;
        loop {
            let reply = self.answer(&build.call());
            let next = self.device.advance_build(slot, build, reply);
            self.obey();
            match next {
                SlotNext::Pending(b) => build = b,
                SlotNext::Built => return Ok(()),
                SlotNext::Refused(f) => return Err(f),
            }
        }
    }

    fn buffer(&mut self, bytes: u64) -> u64 {
        let id = self.device.id();
        ack_buffer_alloc(id, Some(&self.device), bytes).unwrap();
        let mut next = self.device.allocate(bytes);
        loop {
            self.obey();
            match next {
                AllocNext::Pending(b) => {
                    let reply = self.answer(&b.call());
                    next = self.device.advance_allocate(b, reply);
                }
                AllocNext::Made(handle) => return handle,
                AllocNext::Refused(f) => panic!("{f:?}"),
            }
        }
    }

    fn free(&mut self, handle: u64) -> Result<(), Failed> {
        let seq = ack_buffer_free(1, Some(&self.device), handle).unwrap();
        let mut next = self.device.free(seq);
        loop {
            self.obey();
            match next {
                FreeNext::Pending(p) => {
                    let reply = self.answer(&p.call());
                    next = self.device.advance_free(p, reply);
                }
                FreeNext::Freed => return Ok(()),
                FreeNext::Refused(f) => return Err(f),
            }
        }
    }

    fn write(&mut self, seq: u32, data: &[u8], doing: &str) -> Result<(), Failed> {
        let mut next = self.device.write(seq, data, doing);
        loop {
            self.obey();
            match next {
                WriteNext::Pending(u) => {
                    if let Call::WriteMemory { .. } = u.call() {
                        assert_eq!(u.payload(), data);
                    }
                    let reply = self.answer(&u.call());
                    next = self.device.advance_write(u, reply, doing);
                }
                WriteNext::Finished => return Ok(()),
                WriteNext::Refused(f) => return Err(f),
            }
        }
    }

    fn read(&mut self, seq: u32) -> Result<(), Failed> {
        let mut next = self.device.read(seq);
        loop {
            self.obey();
            match next {
                ReadNext::Pending(d) => {
                    let reply = self.answer(&d.call());
                    next = self.device.advance_read(d, reply);
                }
                ReadNext::Finished => return Ok(()),
                ReadNext::Refused(f) => return Err(f),
            }
        }
    }

    fn launch(&mut self, l: &Launch) -> Result<(), Failed> {
        let mut next = self.device.launch(l);
        loop {
            self.obey();
            match next {
                LaunchNext::Pending(d) => {
                    let reply = self.answer(&d.call());
                    next = self.device.advance_launch(l.slot, d, reply);
                }
                LaunchNext::Recorded => return Ok(()),
                LaunchNext::Refused(f) => return Err(f),
            }
        }
    }

    /// Decide a call, building what it asks for, and record what it runs.
    fn run(
        &mut self,
        decide: impl Fn(&AckDevice) -> Result<Step, Refusal>,
    ) -> Result<(Vec<Image>, Vec<Launch>), i32> {
        let mut operation = Operation::new();
        loop {
            let result = match operation.task() {
                Task::Ask => {
                    operation = match decide(&self.device) {
                        Ok(step) => operation.answered(step),
                        Err(refusal) => operation.failed(refusal.code),
                    };
                    continue;
                }
                Task::Build(slot) => self.build(slot),
                Task::Write(image) => {
                    self.write(image.buffer, &image.bytes, &image.failure_prefix())
                }
                Task::Launch(launch) => self.launch(launch),
                Task::Stop(code) => return Err(code),
                Task::Finish => match operation {
                    Operation::Running(images, launches, _, _) => return Ok((images, launches)),
                    other => panic!("{other:?} does not finish"),
                },
            };
            result.unwrap();
            operation = operation.done();
        }
    }

    fn close(&mut self) -> Option<String> {
        let mut next = self.device.close();
        loop {
            self.obey();
            match next {
                CloseNext::Pending(f) => {
                    let reply = self.answer(&f.call());
                    next = self.device.advance_close(f, reply);
                }
                CloseNext::Closed(message) => return message,
            }
        }
    }

    fn end(&mut self) {
        let mut next = self.device.end();
        loop {
            self.obey();
            match next {
                EndNext::Pending(a) => {
                    let reply = self.answer(&a.call());
                    next = self.device.advance_end(a, reply);
                }
                EndNext::Ended => return,
            }
        }
    }
}

fn reason_of(r: Result<Step, Refusal>) -> String {
    r.unwrap_err().reason.message().unwrap()
}

#[test]
fn an_opened_device_has_every_kernel_its_list_names() {
    let plain = Rig::open(false);
    assert_eq!(opening_list(false).len(), 10);
    assert!(plain.device.kernel(Slot::Coopmat(0)).is_none());
    assert!(plain.device.kernel(Slot::Embedding).is_some());
    assert!(plain.device.kernel(Slot::Vq).is_none(), "built on first use");
    assert_eq!(plain.device.context().live_objects(), 40);
    let bf16 = Rig::open(true);
    assert_eq!(opening_list(true).len(), 18);
    for i in 0..8 {
        assert!(bf16.device.kernel(Slot::Coopmat(i)).is_some());
    }
    assert_eq!(every_slot().len(), SLOTS);
    let k = bf16.device.kernel(Slot::ReduceV2(0)).unwrap();
    assert_eq!((k.storage_buffers(), k.push_bytes()), (2, 96));
}

#[test]
fn a_kernel_that_cannot_be_built_is_reported_with_its_name() {
    let mut rig = Rig::new(false);
    rig.fails = |call| matches!(call, Call::CreatePipeline { .. }).then_some(-13);
    let failed = rig.build(Slot::Cast(0)).unwrap_err();
    assert_eq!(failed.code, ACK_ERR_VULKAN);
    assert_eq!(failed.message, "cast pipeline: vulkan call failed: ERROR_UNKNOWN");
    assert_eq!(rig.device.context().live_objects(), 0);
    let failed = rig.device.build(Slot::Loss, &[1, 2, 3]).unwrap_err();
    assert_eq!(failed.message, "loss pipeline: io: input length not divisible by 4");
    rig.fails = |_| None;
    rig.build(Slot::Cast(0)).unwrap();
    rig.build(Slot::Loss).unwrap();
    rig.device.give_up(&vec![Slot::Loss, Slot::Cast(0)]);
    rig.obey();
    assert_eq!(rig.device.context().live_objects(), 0);
}

#[test]
fn device_handles_are_given_out_once() {
    let mut registry = Registry::new();
    assert_eq!(registry.take(), Ok(1));
    assert_eq!(registry.take(), Ok(2));
}

#[test]
fn a_handle_names_one_buffer_of_one_device() {
    let mut rig = Rig::open(false);
    let a = rig.buffer(64);
    let b = rig.buffer(64);
    assert_eq!((a, b), (buffer_handle(1, 1), buffer_handle(1, 2)));
    let code = |r: Result<u32, Refusal>| r.unwrap_err().code;
    let d = Some(&rig.device);
    assert_eq!(ack_upload(1, d, a, Some(64)), Ok(1));
    assert_eq!(code(ack_upload(1, d, a, Some(63))), ACK_ERR_SIZE);
    assert_eq!(code(ack_upload(1, d, a, None)), ACK_ERR_NULL);
    assert_eq!(code(ack_download(1, d, 0, Some(64))), ACK_ERR_NULL);
    assert_eq!(code(ack_download(1, d, buffer_handle(2, 1), Some(64))), ACK_ERR_FOREIGN);
    assert_eq!(code(ack_download(1, d, buffer_handle(1, 3), Some(64))), ACK_ERR_FREED);
    assert_eq!(code(ack_download(1, d, b, Some(65))), ACK_ERR_SIZE);
    let foreign = ack_buffer_free(1, d, buffer_handle(2, 1)).unwrap_err();
    assert_eq!(
        foreign.reason.message().unwrap(),
        "buffer 0x200000001 belongs to device 2, not device 1"
    );
    assert_eq!(ack_buffer_alloc(1, d, 0).unwrap_err().reason, Reason::ZeroBytes);
    rig.free(a).unwrap();
    let d = Some(&rig.device);
    let dead = ack_buffer_free(1, d, a).unwrap_err();
    assert_eq!(dead.code, ACK_ERR_FREED);
    assert_eq!(
        dead.reason.message().unwrap(),
        "buffer 0x100000001 is not live on device 1 (freed, or never allocated)"
    );
    let c = rig.buffer(64);
    assert_eq!(c, buffer_handle(1, 3), "a handle is never given out twice");
}

#[test]
fn a_device_closes_once_its_buffers_are_gone() {
    let mut rig = Rig::open(false);
    let a = rig.buffer(64);
    let refused = ack_close(1, Some(&rig.device)).unwrap_err();
    assert_eq!(refused.code, ACK_ERR_LIVE_BUFFERS);
    assert_eq!(
        refused.reason.message().unwrap(),
        "close refused: 1 buffer(s) still allocated on this device"
    );
    rig.free(a).unwrap();
    assert_eq!(ack_close(1, Some(&rig.device)), Ok(()));
    assert_eq!(rig.close(), None);
    let closed = ack_close(1, Some(&rig.device)).unwrap_err();
    assert_eq!((closed.code, closed.reason), (ACK_ERR_CLOSED, Reason::DeviceClosed { id: 1 }));
}

#[test]
fn a_close_that_fails_to_flush_says_so_and_closes() {
    let mut rig = Rig::open(false);
    let a = rig.buffer(8);
    let b = rig.buffer(4);
    rig.run(|d| ack_cast(1, Some(d), a, b, 2, 0)).unwrap();
    rig.free(a).unwrap();
    rig.free(b).unwrap();
    rig.fails = |call| matches!(call, Call::Submit { .. }).then_some(-1);
    let message = rig.close().unwrap();
    assert!(message.starts_with("close flushed the deferred batch and it failed: "), "{message}");
    assert!(ack_close(1, Some(&rig.device)).is_err());
}

#[test]
fn an_ended_device_gives_everything_back() {
    let mut rig = Rig::open(true);
    let a = rig.buffer(8);
    let b = rig.buffer(4);
    rig.run(|d| ack_cast(1, Some(d), a, b, 2, 0)).unwrap();
    rig.end();
    assert_eq!(rig.device.live_buffers(), 0);
    for slot in every_slot() {
        assert!(rig.device.kernel(slot).is_none());
    }
    rig.device.drain();
    rig.obey();
    assert_eq!(rig.device.context().live_objects(), 0);
}

#[test]
fn a_cast_is_recorded_on_buffers_that_hold_it() {
    let mut rig = Rig::open(false);
    let f = rig.buffer(4 * 1025);
    let h = rig.buffer(2 * 1025);
    let (_, launches) = rig.run(|d| ack_cast(1, Some(d), f, h, 1025, 0)).unwrap();
    assert_eq!(launches[0].slot, Slot::Cast(0));
    assert_eq!(launches[0].groups, [2, 1, 1]);
    assert_eq!(launches[0].push, 1025u32.to_le_bytes());
    assert_eq!(rig.launches, [[2, 1, 1]]);
    let code = |r: Result<(Vec<Image>, Vec<Launch>), i32>| r.unwrap_err();
    assert_eq!(code(rig.run(|d| ack_cast(1, Some(d), h, f, 1026, 1))), ACK_ERR_SIZE);
    assert_eq!(code(rig.run(|d| ack_cast(1, Some(d), f, h, 0, 0))), ACK_ERR_SHAPE);
    assert_eq!(code(rig.run(|d| ack_cast(1, Some(d), f, h, 4, 2))), ACK_ERR_SHAPE);
    assert!(rig.run(|d| ack_cast(1, Some(d), h, f, 1025, 1)).is_ok());
}

#[test]
fn a_bf16_product_picks_its_layout_and_its_edge() {
    let mut rig = Rig::open(true);
    let a = rig.buffer(2 * 128 * 64);
    let b = rig.buffer(2 * 64 * 128);
    let c = rig.buffer(4 * 128 * 128);
    let handles = [a, b, c];
    let slot = |rig: &mut Rig, m, n, k, a_t, b_t| {
        rig.run(|d| ack_matmul_bf16(1, Some(d), handles, m, n, k, a_t, b_t))
            .map(|(_, l)| (l[0].slot, l[0].groups))
    };
    assert_eq!(slot(&mut rig, 128, 128, 64, 0, 0), Ok((Slot::Coopmat(0), [1, 1, 1])));
    assert_eq!(slot(&mut rig, 128, 128, 64, 1, 0), Ok((Slot::Coopmat(2), [1, 1, 1])));
    assert_eq!(slot(&mut rig, 127, 128, 64, 0, 1), Ok((Slot::Coopmat(5), [1, 1, 1])));
    assert_eq!(slot(&mut rig, 0, 128, 64, 0, 0), Err(ACK_ERR_SHAPE));
    assert_eq!(slot(&mut rig, 256, 128, 64, 0, 0), Err(ACK_ERR_SIZE));
    let plain = Rig::open(false);
    let refused = ack_matmul_bf16(1, Some(&plain.device), handles, 8, 8, 8, 0, 0);
    assert_eq!(refused.unwrap_err().code, ACK_ERR_FREED, "the buffers are another rig's");
}

#[test]
fn a_grid_of_products_must_not_overlap() {
    let mut rig = Rig::open(true);
    let a = rig.buffer(2 * 2 * 128 * 64);
    let b = rig.buffer(2 * 2 * 64 * 128);
    let c = rig.buffer(4 * 2 * 128 * 128);
    let product = Product {
        m: 128,
        n: 128,
        k: 64,
        a_t: false,
        b_t: false,
        z: 2,
        zmode: 0,
        za: 128 * 64,
        zb: 64 * 128,
        zc: 128 * 128,
        kz: 0,
        lda: 64,
        ldb: 128,
    };
    let run = |rig: &mut Rig, p: Product| {
        rig.run(|d| ack_matmul_bf16_z(1, Some(d), [a, b, c], p))
            .map(|(_, l)| l[0].groups)
    };
    assert_eq!(run(&mut rig, product), Ok([1, 1, 2]));
    assert_eq!(run(&mut rig, Product { zc: 128, ..product }), Err(ACK_ERR_SHAPE));
    assert_eq!(run(&mut rig, Product { zmode: 9, ..product }), Err(ACK_ERR_SHAPE));
    assert_eq!(run(&mut rig, Product { z: 0, ..product }), Err(ACK_ERR_SHAPE));
    assert_eq!(run(&mut rig, Product { lda: 8, ..product }), Err(ACK_ERR_SHAPE));
    let shared = ack_matmul_bf16_z(1, Some(&rig.device), [a, b, a], product);
    assert_eq!(shared.unwrap_err().reason, Reason::SharedOutput);
    let small = Product { z: 3, ..product };
    assert_eq!(run(&mut rig, small), Err(ACK_ERR_SIZE));
    let split = Product { zmode: 1, za: 0, zb: 0, kz: 32, ..product };
    assert_eq!(run(&mut rig, split), Ok([1, 1, 2]));
    assert_eq!(run(&mut rig, Product { kz: 31, ..split }), Err(ACK_ERR_SHAPE));
    assert_eq!(
        run(&mut rig, Product { kz: 32, z: 1, ..split }),
        Err(ACK_ERR_SHAPE),
        "the splits leave part of K out"
    );
}

#[test]
fn a_grid_of_one_product_is_that_product() {
    let mut rig = Rig::open(true);
    let a = rig.buffer(4 * 128 * 128);
    let b = rig.buffer(4 * 128 * 128);
    let c = rig.buffer(4 * 128 * 128);
    let product = Product {
        m: 128,
        n: 128,
        k: 64,
        a_t: false,
        b_t: false,
        z: 1,
        zmode: 0,
        za: 0,
        zb: 0,
        zc: 0,
        kz: 0,
        lda: 0,
        ldb: 0,
    };
    // the output may be an operand's buffer, as it may for the single product
    for handles in [[a, b, c], [a, b, a], [a, b, b]] {
        for (m, a_t) in [(128, false), (127, true), (0, false), (1024, false)] {
            let p = Product { m, a_t, ..product };
            let grid = rig
                .run(|d| ack_matmul_bf16_z(1, Some(d), handles, p))
                .map(|(_, l)| (l[0].slot, l[0].buffers.clone(), l[0].groups, l[0].access.clone()));
            let single = rig
                .run(|d| ack_matmul_bf16(1, Some(d), handles, m, 128, 64, i32::from(a_t), 0))
                .map(|(_, l)| (l[0].slot, l[0].buffers.clone(), l[0].groups, l[0].access.clone()));
            assert_eq!(grid, single);
            assert_eq!(grid.is_ok(), m == 128 || m == 127);
        }
    }
    // a grid with any z word is not that product
    let pitched = Product { lda: 64, ..product };
    let shared = ack_matmul_bf16_z(1, Some(&rig.device), [a, b, a], pitched);
    assert_eq!(shared.unwrap_err().reason, Reason::SharedOutput);
}

#[test]
fn an_f32_product_is_decoded_from_its_block() {
    let mut rig = Rig::open(false);
    let a = rig.buffer(4 * 6);
    let b = rig.buffer(4 * 12);
    let c = rig.buffer(4 * 8);
    let plan = MatmulPlan::mm(
        MatrixView::contiguous(1, 2, 3, 0, 6).unwrap(),
        MatrixView::contiguous(1, 3, 4, 0, 12).unwrap(),
        MatrixView::contiguous(1, 2, 4, 0, 8).unwrap(),
    )
    .unwrap();
    let block = plan.push_constants();
    let (_, launches) = rig
        .run(|d| ack_matmul_f32(1, Some(d), [a, b, c], 0, Some(&block)))
        .unwrap();
    assert_eq!(launches[0].slot, Slot::MatmulF32);
    assert_eq!(launches[0].push, block);
    assert_eq!(launches[0].groups, plan.dispatch_groups());
    let (_, launches) = rig
        .run(|d| ack_matmul_f32(1, Some(d), [a, b, c], 2, Some(&block)))
        .unwrap();
    assert_eq!(launches[0].slot, Slot::MatmulF32V2);
    let code = |r: Result<(Vec<Image>, Vec<Launch>), i32>| r.unwrap_err();
    let shared = rig.run(|d| ack_matmul_f32(1, Some(d), [a, b, b], 0, Some(&block)));
    assert_eq!(code(shared), ACK_ERR_SHAPE);
    let kind = rig.run(|d| ack_matmul_f32(1, Some(d), [a, b, c], 4, Some(&block)));
    assert_eq!(code(kind), ACK_ERR_SHAPE);
    let small = rig.run(|d| ack_matmul_f32(1, Some(d), [c, b, a], 0, Some(&block)));
    assert_eq!(code(small), ACK_ERR_SIZE);
}

#[test]
fn a_pointwise_storage_module_is_built_on_its_first_use() {
    let mut rig = Rig::open(false);
    let x = rig.buffer(4 * 8);
    let out = rig.buffer(4 * 8);
    let view = StridedView::contiguous(&[8]).unwrap();
    let storage = [1, 2, 3, 4].map(|i| Storage::new(i, 8));
    let plan = PointwisePlan::new_with_storage_flags(
        PointwiseOp::Neg,
        &[8],
        [view; 4],
        Scalars::new(0),
        storage,
        FLAG_BF16[0],
    )
    .unwrap();
    let half = plan.push_constants();
    let handles = [x, x, x, out];
    let first = ack_pointwise(1, Some(&rig.device), handles, Some(&half)).unwrap();
    let Step::Build(slot) = first else {
        panic!("the module is not there yet");
    };
    assert_eq!(slot, Slot::Pointwise(1));
    let (_, launches) = rig
        .run(|d| ack_pointwise(1, Some(d), handles, Some(&half)))
        .unwrap();
    assert_eq!(launches[0].slot, slot);
    assert_eq!(launches[0].push, half);
    let x_id = launches[0].access[0];
    assert_eq!(x_id, Access::read(x_id.buffer));
}

#[test]
fn a_long_reduction_needs_a_partials_buffer() {
    let mut rig = Rig::open(false);
    let n: u32 = 70_000;
    let x = rig.buffer(4 * u64::from(n));
    let partials = rig.buffer(8);
    let out = rig.buffer(4);
    let mut words = [0u32; 20];
    words[2] = 1;
    words[3] = 1;
    words[4] = n;
    for d in 1..6 {
        words[4 + d] = 1;
    }
    words[10] = 1;
    words[19] = 1.0f32.to_bits();
    let block: Vec<u8> = words.iter().flat_map(|w| w.to_le_bytes()).collect();
    let (_, launches) = rig
        .run(|d| ack_reduce(1, Some(d), x, partials, out, Some(&block)))
        .unwrap();
    assert_eq!(launches.len(), 2);
    assert_eq!((launches[0].slot, launches[1].slot), (Slot::Reduce(0), Slot::Reduce(0)));
    assert_eq!((launches[0].groups, launches[1].groups), ([2, 1, 1], [1, 1, 1]));
    let same = ack_reduce(1, Some(&rig.device), x, partials, x, Some(&block));
    assert_eq!(same.unwrap_err().code, ACK_ERR_SHAPE);
    let small = ack_reduce(1, Some(&rig.device), x, out, partials, Some(&block));
    assert_eq!(small.unwrap_err().code, ACK_ERR_SIZE);
}

#[test]
fn a_loss_writes_its_targets_before_it_runs() {
    let mut rig = Rig::open(false);
    let logits = rig.buffer(4 * 6);
    let targets = rig.buffer(8);
    let upstream = rig.buffer(8);
    let out = rig.buffer(8);
    let handles = [logits, targets, upstream, out];
    let (images, launches) = rig
        .run(|d| ack_loss(1, Some(d), handles, 2, 3, 0, 0, -100, Some(&[2, -100])))
        .unwrap();
    assert_eq!(images.len(), 1);
    assert_eq!(images[0].bytes, [2, 0, 0, 0, 255, 255, 255, 255]);
    assert_eq!(images[0].failure_prefix(), "loss: uploading the validated targets: ");
    assert_eq!(launches[0].slot, Slot::Loss);
    assert!(launches[0].buffers.contains(&images[0].buffer));
    let aliased = [logits, targets, upstream, logits];
    let r = ack_loss(1, Some(&rig.device), aliased, 2, 3, 1, 0, -100, Some(&[2, 1]));
    assert_eq!(r.unwrap_err().code, ACK_ERR_SHAPE);
    let exact = [logits, logits, upstream, out];
    let r = ack_loss(1, Some(&rig.device), exact, 2, 3, 0, 0, -100, Some(&[2, 1]));
    assert!(reason_of(r).contains("loss-targets-size-mismatch"));
}

#[test]
fn an_embedding_writes_its_two_images() {
    let mut rig = Rig::open(false);
    let table = rig.buffer(4 * 12);
    let indices = rig.buffer(8);
    let offsets = rig.buffer(4);
    let out = rig.buffer(4 * 6);
    let handles = [table, indices, offsets, out];
    let (images, launches) = rig
        .run(|d| ack_embedding(1, Some(d), handles, 2, 4, 3, 0, Some(&[3, 1])))
        .unwrap();
    assert_eq!(images.len(), 2);
    assert_eq!(images[0].bytes, [3, 0, 0, 0, 1, 0, 0, 0]);
    assert_eq!(launches[0].slot, Slot::Embedding);
    let r = ack_embedding(1, Some(&rig.device), handles, 2, 4, 3, 1, Some(&[3, 1]));
    assert!(r.is_err(), "the backward needs an offset per bucket");
}

#[test]
fn a_row_operation_takes_the_shape_its_planner_derived() {
    let mut rig = Rig::open(false);
    let x = rig.buffer(4 * 32);
    let y = rig.buffer(4 * 32);
    let block: Vec<u8> = [4u32, 8, 0, 0].iter().flat_map(|w| w.to_le_bytes()).collect();
    let shape = RowShape {
        primary_len: 32,
        upstream_len: 1,
        gamma_len: 1,
        output_len: 32,
        groups: [4, 1, 1],
    };
    let (_, launches) = rig
        .run(|d| ack_rowwise(1, Some(d), [x, x, x, y], Some(&block), Ok(shape)))
        .unwrap();
    assert_eq!(launches[0].groups, [4, 1, 1]);
    let r = ack_rowwise(1, Some(&rig.device), [x, x, x, x], Some(&block), Ok(shape));
    assert_eq!(r.unwrap_err().code, ACK_ERR_SHAPE);
    let wide = RowShape { primary_len: 33, ..shape };
    let r = ack_rowwise(1, Some(&rig.device), [x, x, x, y], Some(&block), Ok(wide));
    assert_eq!(r.unwrap_err().code, ACK_ERR_SIZE);
}

#[test]
fn vector_quantisation_admits_before_it_builds() {
    assert_eq!(ack_vq_schema(), 1);
    assert_eq!((vq_plan_code(true), vq_plan_code(false)), (ACK_ERR_SIZE, ACK_ERR_SHAPE));
    assert_eq!(vq_plan_message("x"), "vq: plan refused: x");
    assert_eq!(vq_words(None).unwrap_err().code, ACK_ERR_NULL);
    let short = vq_words(Some(&[0; 31])).unwrap_err();
    assert_eq!(short.reason.message().unwrap(), "vq: plan has 31 bytes, expected 32");
    let words: [u32; 8] = [1, 2, 3, 4, 5, 16, 0, 0];
    let block: Vec<u8> = words.iter().flat_map(|w| w.to_le_bytes()).collect();
    assert_eq!(vq_words(Some(&block)), Ok(words));
    let mut rig = Rig::open(false);
    let handles: [u64; 6] = std::array::from_fn(|i| rig.buffer(4 * (i as u64 + 1)));
    let admitted = vq_admit(1, Some(&rig.device), handles).unwrap();
    assert_eq!(admitted.capacities, [4, 8, 12, 16, 20, 24]);
    let (_, launches) = rig
        .run(|d| ack_vq(1, Some(d), handles, words, [3, 1, 1]))
        .unwrap();
    assert_eq!((launches[0].slot, launches[0].groups), (Slot::Vq, [3, 1, 1]));
    assert_eq!(launches[0].push, block);
    assert_eq!(launches[0].access[4], Access::write(admitted.ids[4]));
}

#[test]
fn a_poisoned_device_is_told_apart() {
    let mut rig = Rig::open(false);
    let a = rig.buffer(8);
    let b = rig.buffer(4);
    rig.run(|d| ack_cast(1, Some(d), a, b, 2, 0)).unwrap();
    rig.fails = |call| match call {
        Call::WaitFence { .. } | Call::WaitIdle => Some(-13),
        _ => None,
    };
    let failed = rig.read(2).unwrap_err();
    assert_eq!(failed.code, ACK_ERR_POISONED);
    assert!(rig.device.is_poisoned());
    assert_eq!(ack_leaked_on_poison(1, Some(&rig.device), true), Ok(2));
    let freed = rig.free(a).unwrap_err();
    assert!(freed.message.starts_with("buffer leaked, not freed: "), "{}", freed.message);
    assert_eq!(ack_leaked_on_poison(1, Some(&rig.device), true), Ok(4));
    let handles = [b; 6];
    let refused = vq_admit(1, Some(&rig.device), handles).unwrap_err();
    assert_eq!(refused.code, ACK_ERR_POISONED);
    assert_eq!(freed.code, ACK_ERR_POISONED);
    assert_eq!(rig.write(2, &[0; 4], "").unwrap_err().code, ACK_ERR_POISONED);
    assert_eq!(rig.read(2).unwrap_err().code, ACK_ERR_POISONED);
    match rig.device.allocate(8) {
        AllocNext::Refused(failed) => assert_eq!(failed.code, ACK_ERR_POISONED),
        other => panic!("{other:?}"),
    }
    match ack_cast(1, Some(&rig.device), b, b, 1, 0) {
        Ok(Step::Run(_, launches)) => {
            assert_eq!(rig.launch(&launches[0]).unwrap_err().code, ACK_ERR_POISONED);
        }
        other => panic!("{other:?}"),
    }
    // its end leaves everything allocated, and live
    let live = rig.live;
    rig.end();
    rig.device.drain();
    rig.obey();
    assert_eq!((rig.live, rig.device.live_buffers()), (live, 0));
    assert!(rig.device.context().leaked_on_poison() > 4);
}

#[test]
fn records_tell_what_the_device_is_and_did() {
    let mut rig = Rig::open(true);
    let a = rig.buffer(8);
    let b = rig.buffer(4);
    rig.run(|d| ack_cast(1, Some(d), a, b, 2, 0)).unwrap();
    let info = ack_device_info(1, Some(&rig.device), Some(616), 77).unwrap();
    assert_eq!((info.vendor_id, info.device_id, info.subgroup_size), (1, 2, 64));
    assert_eq!((info.matmul_tile, info.matmul_k_multiple), (128, 32));
    assert!(info.device_name.starts_with(b"Test Device\0"));
    assert_eq!(info.timestamp_period_bits, 10.0f32.to_bits());
    let plain = Rig::open(false);
    let other = ack_device_info(1, Some(&plain.device), Some(616), 77).unwrap();
    assert_ne!(info.identity, other.identity);
    assert_eq!(
        device_identity(rig.device.context().report(), 77),
        device_identity(plain.device.context().report(), 77)
    );
    let stats = ack_dispatch_stats(1, Some(&rig.device), Some(96)).unwrap();
    assert_eq!((stats.size, stats.items, stats.commands), (96, 1, 1));
    assert_eq!(ack_device_name(1, Some(&rig.device), Some(5)).unwrap(), b"Test\0");
    assert_eq!(ack_device_name(1, Some(&rig.device), Some(0)).unwrap_err().code, ACK_ERR_NULL);
    let live = rig.device.context().live_objects();
    assert_eq!(ack_live_objects(1, Some(&rig.device), true), Ok(live));
    assert_eq!(ack_live_objects(1, Some(&rig.device), false).unwrap_err().code, ACK_ERR_NULL);
}

#[test]
fn faults_are_armed_by_kind() {
    let rig = Rig::open(false);
    let d = Some(&rig.device);
    assert_eq!(ack_inject_fault(1, d, 0, -4), Ok(Fault::WaitFails(-4)));
    assert_eq!(ack_inject_fault(1, d, 1, -1), Ok(Fault::IdleFails(-1)));
    let refused = ack_inject_fault(1, d, 2, -1).unwrap_err();
    assert_eq!(refused.code, ACK_ERR_SHAPE);
    assert_eq!(
        refused.reason.message().unwrap(),
        "ack_inject_fault: kind 2 is not 0 (wait) or 1 (idle)"
    );
    assert_ne!(ACK_ERR_SHAPE, ACK_ERR_UNSUPPORTED_OP);
}

#[test]
fn an_operation_writes_then_launches_and_stops_at_the_first_failure() {
    let image = |part, bytes: usize| Image {
        buffer: 1,
        bytes: vec![0; bytes],
        family: Family::Embedding,
        part,
    };
    let launch = || Launch {
        slot: Slot::Embedding,
        buffers: vec![1],
        push: Vec::new(),
        groups: [1, 1, 1],
        access: Vec::new(),
    };
    let start = || {
        let operation = Operation::new();
        assert!(matches!(operation.task(), Task::Ask));
        let operation = operation.answered(Step::Build(Slot::Vq));
        assert!(matches!(operation.task(), Task::Build(Slot::Vq)));
        let operation = operation.done();
        assert!(matches!(operation.task(), Task::Ask));
        operation.answered(Step::Run(
            vec![image(Part::Indices, 12), image(Part::Offsets, 4)],
            vec![launch()],
        ))
    };
    let operation = start();
    assert!(matches!(operation.task(), Task::Write(i) if i.part == Part::Indices));
    let operation = operation.done();
    assert!(matches!(operation.task(), Task::Write(i) if i.part == Part::Offsets));
    assert_eq!(operation.uploaded(), None);
    let operation = operation.done();
    assert!(matches!(operation.task(), Task::Launch(_)));
    assert_eq!(operation.uploaded(), Some(16));
    let operation = operation.done();
    assert!(matches!(operation.task(), Task::Finish));
    assert_eq!(operation.uploaded(), Some(16));
    // a failed upload leaves no count, a failed launch leaves it
    let stopped = start().done().failed(ACK_ERR_VULKAN);
    assert!(matches!(stopped.task(), Task::Stop(ACK_ERR_VULKAN)));
    assert_eq!(stopped.uploaded(), None);
    let stopped = start().done().done().failed(ACK_ERR_VULKAN);
    assert_eq!(stopped.uploaded(), Some(16));
}
