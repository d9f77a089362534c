//! The decision core of the Alelyon Compute Kit, a Vulkan compute runtime.
//!
//! Every plan, refusal, byte image and state transition of the runtime is
//! computed here on plain values and proved against its contract; the calls
//! into the driver are made around it.

pub mod arith;
pub mod attention_ops;
pub mod batch;
pub mod context;
pub mod device;
pub mod driver;
pub mod embedding_ops;
pub mod error;
pub mod faults;
pub mod ffi;
pub mod float_bits;
pub mod kernel;
pub mod ledger;
pub mod loss_ops;
pub mod matmul_ops;
pub mod one_shot;
pub mod packed2_ops;
pub mod pointwise_ops;
pub mod pool;
pub mod raw_buffer;
pub mod reduce_ops;
pub mod text;
pub mod timing;
pub mod words;

pub use batch::{Access, AccessKind, FlushReason, ALL_FLUSH_REASONS, FLUSH_REASON_COUNT};
pub use context::{BarrierMode, Buffer, Context, DescriptorMode, DispatchStats, PoolMode};
pub use device::{CoopmatShape, DeviceReport};
pub use error::AckError;
pub use faults::{CreateStep, Fault};
pub use float_bits::{bf16_to_f32, f32_to_bf16};
pub use kernel::Kernel;
pub use pool::PoolStats;
pub use timing::resolve_timestamps;
