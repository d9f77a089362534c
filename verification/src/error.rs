//! What a call of the runtime refuses with.

use vstd::prelude::*;
use vstd::string::*;

verus! {

/// The driver's result code for exhausted host memory.
pub const ERROR_OUT_OF_HOST_MEMORY: i32 = -1;

/// The driver's result code for exhausted device memory.
pub const ERROR_OUT_OF_DEVICE_MEMORY: i32 = -2;

/// The driver's result code for a lost device.
pub const ERROR_DEVICE_LOST: i32 = -4;

/// A failure of the runtime.
#[derive(Debug)]
pub enum AckError {
    /// The Vulkan loader could not be used.
    Load(String),
    /// A driver call failed with this result code.
    Vulkan(i32),
    /// No device can be used.
    NoDevice(String),
    /// A request outside what the device or the library can do.
    Unsupported(String),
    /// Bytes that are not what they were given for.
    Io(String),
    /// A buffer or kernel handed to a context that did not create it.
    Foreign(String),
    /// A buffer used, or still bound to a kernel, after it was destroyed.
    Freed(String),
    /// The context's device state is unknown, or the device is lost; every call
    /// refuses until the context is dropped.
    Poisoned(String),
    /// A timed dispatch completed but its device duration cannot be resolved.
    AmbiguousTiming(String),
    /// A flush of the deferred batch failed before its submission succeeded; the
    /// text names the batch.
    Batch(String),
}

/// What an `AckError` says.
pub ghost enum Failure {
    Load(Seq<char>),
    Vulkan(i32),
    NoDevice(Seq<char>),
    Unsupported(Seq<char>),
    Io(Seq<char>),
    Foreign(Seq<char>),
    Freed(Seq<char>),
    Poisoned(Seq<char>),
    AmbiguousTiming(Seq<char>),
    Batch(Seq<char>),
}

impl View for AckError {
    type V = Failure;

    open spec fn view(&self) -> Failure {
        match self {
            AckError::Load(s) => Failure::Load(s@),
            AckError::Vulkan(code) => Failure::Vulkan(*code),
            AckError::NoDevice(s) => Failure::NoDevice(s@),
            AckError::Unsupported(s) => Failure::Unsupported(s@),
            AckError::Io(s) => Failure::Io(s@),
            AckError::Foreign(s) => Failure::Foreign(s@),
            AckError::Freed(s) => Failure::Freed(s@),
            AckError::Poisoned(s) => Failure::Poisoned(s@),
            AckError::AmbiguousTiming(s) => Failure::AmbiguousTiming(s@),
            AckError::Batch(s) => Failure::Batch(s@),
        }
    }
}

/// The name that the Vulkan bindings print for a result code.
pub uninterp spec fn result_name(code: i32) -> Seq<char>;

/// The names that the Vulkan bindings print for a set of memory property flags.
pub uninterp spec fn memory_flags_name(flags: u32) -> Seq<char>;

/// The `Debug` text of `ash::vk::Result`: a fixed name per known code, the
/// number itself for any other. The text depends on the code alone.
#[verifier::external_body]
pub(crate) fn result_text(code: i32) -> (r: String)
    ensures
        r@ == result_name(code),
{
    format!("{:?}", ash::vk::Result::from_raw(code))
}

/// The `Debug` text of `ash::vk::MemoryPropertyFlags`: the known flag names and
/// any unknown bits. The text depends on the flags alone.
#[verifier::external_body]
pub(crate) fn memory_flags_text(flags: u32) -> (r: String)
    ensures
        r@ == memory_flags_name(flags),
{
    format!("{:?}", ash::vk::MemoryPropertyFlags::from_raw(flags))
}

impl Failure {
    /// The text a failure is reported with.
    pub open spec fn text(self) -> Seq<char> {
        match self {
            Failure::Load(s) => "vulkan loader: "@ + s,
            Failure::Vulkan(code) => "vulkan call failed: "@ + result_name(code),
            Failure::NoDevice(s) => "no usable device: "@ + s,
            Failure::Unsupported(s) => "unsupported: "@ + s,
            Failure::Io(s) => "io: "@ + s,
            Failure::Foreign(s) => "foreign resource: "@ + s,
            Failure::Freed(s) => "freed resource: "@ + s,
            Failure::Poisoned(s) => "poisoned context: "@ + s,
            Failure::AmbiguousTiming(s) => "ambiguous timing: "@ + s,
            Failure::Batch(s) => "deferred batch: "@ + s,
        }
    }
}

impl AckError {
    /// The text this failure is reported with.
    pub fn message(&self) -> (r: String)
        ensures
            r@ == self@.text(),
    {
        match self {
            AckError::Load(s) => String::from_str("vulkan loader: ").concat(s.as_str()),
            AckError::Vulkan(code) => {
                let name = result_text(*code);
                String::from_str("vulkan call failed: ").concat(name.as_str())
            },
            AckError::NoDevice(s) => String::from_str("no usable device: ").concat(s.as_str()),
            AckError::Unsupported(s) => String::from_str("unsupported: ").concat(s.as_str()),
            AckError::Io(s) => String::from_str("io: ").concat(s.as_str()),
            AckError::Foreign(s) => String::from_str("foreign resource: ").concat(s.as_str()),
            AckError::Freed(s) => String::from_str("freed resource: ").concat(s.as_str()),
            AckError::Poisoned(s) => String::from_str("poisoned context: ").concat(s.as_str()),
            AckError::AmbiguousTiming(s) => String::from_str("ambiguous timing: ").concat(s.as_str()),
            AckError::Batch(s) => String::from_str("deferred batch: ").concat(s.as_str()),
        }
    }
}

impl From<i32> for AckError {
    fn from(code: i32) -> Self {
        AckError::Vulkan(code)
    }
}

impl vstd::std_specs::convert::FromSpecImpl<i32> for AckError {
    open spec fn obeys_from_spec() -> bool {
        true
    }

    open spec fn from_spec(code: i32) -> Self {
        AckError::Vulkan(code)
    }
}

/// The outcome of a driver call: success, or the result code it failed with.
pub open spec fn outcome_text(outcome: Option<i32>) -> Seq<char> {
    match outcome {
        None => "Ok(())"@,
        Some(code) => "Err("@ + result_name(code) + ")"@,
    }
}

/// The text of an outcome.
pub(crate) fn outcome(failure: Option<i32>) -> (r: String)
    ensures
        r@ == outcome_text(failure),
{
    match failure {
        None => String::from_str("Ok(())"),
        Some(code) => {
            let mut s = String::from_str("Err(");
            let name = result_text(code);
            s.append(name.as_str());
            s.append(")");
            s
        },
    }
}

/// A failure's text is what kind of failure it is, and then its detail.
pub proof fn law_failure_text_is_kind_and_detail(s: Seq<char>, code: i32)
    ensures
        Failure::Load(s).text() == "vulkan loader: "@ + s,
        Failure::Vulkan(code).text() == "vulkan call failed: "@ + result_name(code),
        Failure::NoDevice(s).text() == "no usable device: "@ + s,
        Failure::Unsupported(s).text() == "unsupported: "@ + s,
        Failure::Io(s).text() == "io: "@ + s,
        Failure::Foreign(s).text() == "foreign resource: "@ + s,
        Failure::Freed(s).text() == "freed resource: "@ + s,
        Failure::Poisoned(s).text() == "poisoned context: "@ + s,
        Failure::AmbiguousTiming(s).text() == "ambiguous timing: "@ + s,
        Failure::Batch(s).text() == "deferred batch: "@ + s,
{
}

/// An outcome is spelled as a success, or as the failure's code name in an
/// error; the two memory codes and the lost device are the driver's.
pub proof fn law_outcomes_are_spelled(code: i32)
    ensures
        outcome_text(None) == "Ok(())"@,
        outcome_text(Some(code)) == "Err("@ + result_name(code) + ")"@,
        ERROR_OUT_OF_HOST_MEMORY == -1,
        ERROR_OUT_OF_DEVICE_MEMORY == -2,
        ERROR_DEVICE_LOST == -4,
{
}

} // verus!
