//! What the driver declares about a device: which device is opened, what is
//! reported of it, and what is enabled on it.

use crate::batch::str_eq;
use crate::error::{AckError, Failure};
use crate::text::{append_decimal, append_signed, decimal_text, signed_text};
use crate::words::{push_word, word_at, word_bytes};
use vstd::prelude::*;
use vstd::string::*;

verus! {

/// A queue family that can run graphics work.
pub const QUEUE_GRAPHICS: u32 = 1;

/// A queue family that can run compute work.
pub const QUEUE_COMPUTE: u32 = 2;

/// A memory heap that is local to the device.
pub const HEAP_DEVICE_LOCAL: u32 = 1;

/// One row of cooperative matrix properties, decoded.
#[derive(Clone, Debug)]
pub struct CoopmatShape {
    pub m: u32,
    pub n: u32,
    pub k: u32,
    pub a_type: String,
    pub b_type: String,
    pub c_type: String,
    pub result_type: String,
    pub scope: String,
    pub saturating: bool,
}

/// One row of cooperative matrix properties, as the driver gives it.
#[derive(Clone, Copy, Debug, PartialEq, Eq, Structural)]
pub struct CoopmatRow {
    pub m: u32,
    pub n: u32,
    pub k: u32,
    pub a_type: i32,
    pub b_type: i32,
    pub c_type: i32,
    pub result_type: i32,
    pub scope: i32,
    pub saturating: bool,
}

/// A queue family: its flags and the valid bits of its timestamps.
#[derive(Clone, Copy, Debug, PartialEq, Eq, Structural)]
pub struct QueueFamily {
    pub flags: u32,
    pub timestamp_valid_bits: u32,
}

/// A memory heap.
#[derive(Clone, Copy, Debug, PartialEq, Eq, Structural)]
pub struct Heap {
    pub flags: u32,
    pub size: u64,
}

/// The features the runtime asks a device about.
#[derive(Clone, Copy, Debug, PartialEq, Eq, Structural)]
pub struct Features {
    pub bf16_type: bool,
    pub bf16_dot_product: bool,
    pub bf16_cooperative_matrix: bool,
    pub cooperative_matrix: bool,
    pub shader_int16: bool,
    pub storage_buffer_16bit: bool,
    pub shader_float16: bool,
    pub shader_int8: bool,
    pub memory_model: bool,
    pub memory_model_device_scope: bool,
    pub host_query_reset: bool,
    pub subgroup_size_control: bool,
    pub compute_full_subgroups: bool,
}

/// The limits that requests are checked against.
#[derive(Clone, Copy, Debug)]
pub struct Limits {
    pub max_storage_buffer_bytes: u64,
    pub max_workgroup_count: [u32; 3],
    pub max_push_constant_bytes: u32,
}

/// A device that could be opened.
#[derive(Debug)]
pub struct Candidate {
    pub discrete: bool,
    pub extensions: Vec<String>,
    pub families: Vec<QueueFamily>,
}

/// Everything the driver says of the device that is opened.
#[derive(Debug)]
pub struct DeviceFacts {
    pub device_name: String,
    pub driver_name: String,
    pub driver_info: String,
    pub api_version_raw: u32,
    pub driver_version_raw: u32,
    pub vendor_id: u32,
    pub device_id: u32,
    pub device_type: u32,
    pub driver_id: i32,
    pub device_uuid: [u8; 16],
    pub driver_uuid: [u8; 16],
    pub subgroup_size: u32,
    /// The bits of the nanoseconds a timestamp tick takes, as a float.
    pub timestamp_period_bits: u32,
    pub max_workgroup_invocations: u32,
    pub max_workgroup_size: [u32; 3],
    pub limits: Limits,
    pub extensions: Vec<String>,
    pub features: Features,
    pub coopmat_rows: Vec<CoopmatRow>,
    pub heaps: Vec<Heap>,
    /// The property flags of each memory type.
    pub memory_types: Vec<u32>,
    pub families: Vec<QueueFamily>,
}

/// What a device was found to have.
#[derive(Clone, Debug)]
pub struct DeviceReport {
    pub device_name: String,
    pub api_version: String,
    pub driver_version_raw: u32,
    pub driver_name: String,
    pub driver_info: String,
    pub subgroup_size: u32,
    /// The bits of the nanoseconds a timestamp tick takes, as a float.
    pub timestamp_period_bits: u32,
    pub bf16_type: bool,
    pub bf16_dot_product: bool,
    pub bf16_cooperative_matrix: bool,
    pub cooperative_matrix: bool,
    pub shader_int16: bool,
    pub coopmat_shapes: Vec<CoopmatShape>,
    pub device_local_bytes: u64,
    pub vendor_id: u32,
    pub device_id: u32,
    pub device_type: u32,
    pub api_version_raw: u32,
    pub driver_id: i32,
    pub device_uuid: [u8; 16],
    pub driver_uuid: [u8; 16],
    pub max_workgroup_invocations: u32,
    pub max_workgroup_size: [u32; 3],
}

impl DeviceReport {
    /// The bytes a stable device identity is hashed from.
    pub open spec fn identity(self) -> Seq<u8> {
        word_bytes(self.vendor_id) + word_bytes(self.device_id) + self.device_uuid@
            + self.driver_uuid@ + word_bytes(self.driver_version_raw) + word_bytes(
            self.api_version_raw,
        )
    }

    /// The bytes a stable device identity is hashed from: vendor and device
    /// ids, the two UUIDs, the driver version and the packed API version.
    pub fn identity_bytes(&self) -> (r: Vec<u8>)
        ensures
            r@ == self.identity(),
            r@.len() == 48,
    {
        let mut out: Vec<u8> = Vec::new();
        push_word(&mut out, self.vendor_id);
        push_word(&mut out, self.device_id);
        push_bytes16(&mut out, &self.device_uuid);
        push_bytes16(&mut out, &self.driver_uuid);
        push_word(&mut out, self.driver_version_raw);
        push_word(&mut out, self.api_version_raw);
        proof {
            assert(out@ =~= self.identity());
        }
        out
    }
}

/// Two reports with the same identity agree in everything it is made of.
pub proof fn law_identity_tells_devices_apart(a: DeviceReport, b: DeviceReport)
    requires
        a.identity() == b.identity(),
    ensures
        a.vendor_id == b.vendor_id,
        a.device_id == b.device_id,
        a.device_uuid@ == b.device_uuid@,
        a.driver_uuid@ == b.driver_uuid@,
        a.driver_version_raw == b.driver_version_raw,
        a.api_version_raw == b.api_version_raw,
{
    let x = a.identity();
    let y = b.identity();
    assert(x.subrange(0, 4) =~= word_bytes(a.vendor_id));
    assert(y.subrange(0, 4) =~= word_bytes(b.vendor_id));
    assert(x.subrange(4, 8) =~= word_bytes(a.device_id));
    assert(y.subrange(4, 8) =~= word_bytes(b.device_id));
    assert(x.subrange(8, 24) =~= a.device_uuid@);
    assert(y.subrange(8, 24) =~= b.device_uuid@);
    assert(x.subrange(24, 40) =~= a.driver_uuid@);
    assert(y.subrange(24, 40) =~= b.driver_uuid@);
    assert(x.subrange(40, 44) =~= word_bytes(a.driver_version_raw));
    assert(y.subrange(40, 44) =~= word_bytes(b.driver_version_raw));
    assert(x.subrange(44, 48) =~= word_bytes(a.api_version_raw));
    assert(y.subrange(44, 48) =~= word_bytes(b.api_version_raw));
    crate::words::lemma_word_round_trip(a.vendor_id);
    crate::words::lemma_word_round_trip(b.vendor_id);
    crate::words::lemma_word_round_trip(a.device_id);
    crate::words::lemma_word_round_trip(b.device_id);
    crate::words::lemma_word_round_trip(a.driver_version_raw);
    crate::words::lemma_word_round_trip(b.driver_version_raw);
    crate::words::lemma_word_round_trip(a.api_version_raw);
    crate::words::lemma_word_round_trip(b.api_version_raw);
}

fn push_bytes16(out: &mut Vec<u8>, bytes: &[u8; 16])
    ensures
        final(out)@ == old(out)@ + bytes@,
{
    let mut i: usize = 0;
    proof {
        assert(old(out)@ + bytes@.take(0) =~= old(out)@);
    }
    while i < 16
        invariant
            i <= 16,
            out@ == old(out)@ + bytes@.take(i as int),
        decreases 16 - i,
    {
        out.push(bytes[i]);
        proof {
            assert(bytes@.take(i + 1) =~= bytes@.take(i as int).push(bytes@[i as int]));
            assert(out@ =~= old(out)@ + bytes@.take(i + 1));
        }
        i += 1;
    }
    proof {
        assert(bytes@.take(16) =~= bytes@);
    }
}

/// `ash::vk::api_version_major`: the seven bits above the minor version.
pub assume_specification[ ash::vk::api_version_major ](version: u32) -> (r: u32)
    ensures
        r == (version >> 22) & 0x7f,
;

/// `ash::vk::api_version_minor`: the ten bits above the patch version.
pub assume_specification[ ash::vk::api_version_minor ](version: u32) -> (r: u32)
    ensures
        r == (version >> 12) & 0x3ff,
;

/// `ash::vk::api_version_patch`: the lowest twelve bits.
pub assume_specification[ ash::vk::api_version_patch ](version: u32) -> (r: u32)
    ensures
        r == version & 0xfff,
;

/// The text of a packed API version.
pub open spec fn version_text(version: u32) -> Seq<char> {
    decimal_text(((version >> 22) & 0x7f) as nat) + "."@ + decimal_text(
        ((version >> 12) & 0x3ff) as nat,
    ) + "."@ + decimal_text((version & 0xfff) as nat)
}

/// The text of a packed API version.
pub fn version(raw: u32) -> (r: String)
    ensures
        r@ == version_text(raw),
{
    let mut s = crate::text::decimal(ash::vk::api_version_major(raw) as u64);
    s.append(".");
    append_decimal(&mut s, ash::vk::api_version_minor(raw) as u64);
    s.append(".");
    append_decimal(&mut s, ash::vk::api_version_patch(raw) as u64);
    s
}

/// The name of a cooperative matrix component type.
pub open spec fn component_type_text(raw: i32) -> Seq<char> {
    if raw == 0 {
        "float16"@
    } else if raw == 1 {
        "float32"@
    } else if raw == 2 {
        "float64"@
    } else if raw == 3 {
        "sint8"@
    } else if raw == 4 {
        "sint16"@
    } else if raw == 5 {
        "sint32"@
    } else if raw == 6 {
        "sint64"@
    } else if raw == 7 {
        "uint8"@
    } else if raw == 8 {
        "uint16"@
    } else if raw == 9 {
        "uint32"@
    } else if raw == 10 {
        "uint64"@
    } else if raw == 1000141000 {
        "bfloat16"@
    } else {
        "component_type_"@ + signed_text(raw as int)
    }
}

/// The name of a cooperative matrix component type.
pub fn component_type_name(raw: i32) -> (r: String)
    ensures
        r@ == component_type_text(raw),
{
    match raw {
        0 => String::from_str("float16"),
        1 => String::from_str("float32"),
        2 => String::from_str("float64"),
        3 => String::from_str("sint8"),
        4 => String::from_str("sint16"),
        5 => String::from_str("sint32"),
        6 => String::from_str("sint64"),
        7 => String::from_str("uint8"),
        8 => String::from_str("uint16"),
        9 => String::from_str("uint32"),
        10 => String::from_str("uint64"),
        1000141000 => String::from_str("bfloat16"),
        _ => {
            let mut s = String::from_str("component_type_");
            append_signed(&mut s, raw);
            s
        },
    }
}

/// The name of a cooperative matrix scope.
pub open spec fn scope_text(raw: i32) -> Seq<char> {
    if raw == 1 {
        "device"@
    } else if raw == 2 {
        "workgroup"@
    } else if raw == 3 {
        "subgroup"@
    } else if raw == 5 {
        "queue_family"@
    } else {
        "scope_"@ + signed_text(raw as int)
    }
}

/// The name of a cooperative matrix scope.
pub fn scope_name(raw: i32) -> (r: String)
    ensures
        r@ == scope_text(raw),
{
    match raw {
        1 => String::from_str("device"),
        2 => String::from_str("workgroup"),
        3 => String::from_str("subgroup"),
        5 => String::from_str("queue_family"),
        _ => {
            let mut s = String::from_str("scope_");
            append_signed(&mut s, raw);
            s
        },
    }
}

/// A shape is what a row decodes to.
pub open spec fn decodes(shape: CoopmatShape, row: CoopmatRow) -> bool {
    &&& shape.m == row.m
    &&& shape.n == row.n
    &&& shape.k == row.k
    &&& shape.a_type@ == component_type_text(row.a_type)
    &&& shape.b_type@ == component_type_text(row.b_type)
    &&& shape.c_type@ == component_type_text(row.c_type)
    &&& shape.result_type@ == component_type_text(row.result_type)
    &&& shape.scope@ == scope_text(row.scope)
    &&& shape.saturating == row.saturating
}

/// Decode the cooperative matrix properties.
fn decode_shapes(rows: &Vec<CoopmatRow>) -> (r: Vec<CoopmatShape>)
    ensures
        r@.len() == rows@.len(),
        forall|i: int| 0 <= i < rows@.len() ==> decodes(#[trigger] r@[i], rows@[i]),
{
    let mut out: Vec<CoopmatShape> = Vec::new();
    let mut i: usize = 0;
    while i < rows.len()
        invariant
            i <= rows.len(),
            out@.len() == i,
            forall|j: int| 0 <= j < i ==> decodes(#[trigger] out@[j], rows@[j]),
        decreases rows.len() - i,
    {
        let row: CoopmatRow = rows[i];
        out.push(
            CoopmatShape {
                m: row.m,
                n: row.n,
                k: row.k,
                a_type: component_type_name(row.a_type),
                b_type: component_type_name(row.b_type),
                c_type: component_type_name(row.c_type),
                result_type: component_type_name(row.result_type),
                scope: scope_name(row.scope),
                saturating: row.saturating,
            },
        );
        i += 1;
    }
    out
}

/// Whether a name is in a list.
pub open spec fn lists(names: Seq<String>, name: Seq<char>) -> bool {
    exists|i: int| 0 <= i < names.len() && (#[trigger] names[i])@ == name
}

fn has(names: &Vec<String>, name: &str) -> (r: bool)
    ensures
        r == lists(names@, name@),
{
    let mut i: usize = 0;
    while i < names.len()
        invariant
            i <= names.len(),
            forall|j: int| 0 <= j < i ==> (#[trigger] names@[j])@ != name@,
        decreases names.len() - i,
    {
        if str_eq(names[i].as_str(), name) {
            return true;
        }
        i += 1;
    }
    false
}

pub open spec fn has_coopmat(names: Seq<String>) -> bool {
    lists(names, "VK_KHR_cooperative_matrix"@)
}

pub open spec fn has_bf16(names: Seq<String>) -> bool {
    lists(names, "VK_KHR_shader_bfloat16"@)
}

pub open spec fn computes(f: QueueFamily) -> bool {
    f.flags & QUEUE_COMPUTE == QUEUE_COMPUTE
}

pub open spec fn draws(f: QueueFamily) -> bool {
    f.flags & QUEUE_GRAPHICS == QUEUE_GRAPHICS
}

/// The first family from `from` on that computes, and does not draw where
/// `only` asks for it.
pub open spec fn first_family(families: Seq<QueueFamily>, only: bool, from: int) -> Option<int>
    decreases families.len() - from,
{
    if from >= families.len() {
        None
    } else if computes(families[from]) && (!only || !draws(families[from])) {
        Some(from)
    } else {
        first_family(families, only, from + 1)
    }
}

fn find_family(families: &Vec<QueueFamily>, only: bool) -> (r: Option<usize>)
    ensures
        match first_family(families@, only, 0) {
            Some(i) => r == Some(i as usize) && 0 <= i < families@.len(),
            None => r is None,
        },
{
    let mut i: usize = 0;
    while i < families.len()
        invariant
            i <= families.len(),
            first_family(families@, only, 0) == first_family(families@, only, i as int),
        decreases families.len() - i,
    {
        let f: QueueFamily = families[i];
        if f.flags & QUEUE_COMPUTE == QUEUE_COMPUTE && (!only || f.flags & QUEUE_GRAPHICS
            != QUEUE_GRAPHICS) {
            return Some(i);
        }
        i += 1;
    }
    None
}

/// The family that work is submitted to: one that computes and does not draw
/// where there is one, else any that computes.
pub open spec fn chosen_family(families: Seq<QueueFamily>) -> Option<int> {
    match first_family(families, true, 0) {
        Some(i) => Some(i),
        None => first_family(families, false, 0),
    }
}

/// The chosen family computes, and where it draws every computing family does;
/// where none is chosen none computes.
pub proof fn law_chosen_family_computes(families: Seq<QueueFamily>, j: int)
    requires
        0 <= j < families.len(),
        computes(families[j]),
    ensures
        chosen_family(families) is Some,
        0 <= chosen_family(families)->0 < families.len(),
        computes(families[chosen_family(families)->0]),
        draws(families[chosen_family(families)->0]) ==> draws(families[j]),
{
    lemma_first_family(families, true, 0, j);
    lemma_first_family(families, false, 0, j);
}

proof fn lemma_first_family(families: Seq<QueueFamily>, only: bool, from: int, j: int)
    requires
        0 <= from <= j < families.len(),
        computes(families[j]),
    ensures
        !only || !draws(families[j]) ==> first_family(families, only, from) is Some,
        match first_family(families, only, from) {
            Some(i) => from <= i < families.len() && computes(families[i]) && (!only || !draws(
                families[i],
            )),
            None => true,
        },
    decreases families.len() - from,
{
    if !(computes(families[from]) && (!only || !draws(families[from]))) {
        if from < j {
            lemma_first_family(families, only, from + 1, j);
        } else {
            lemma_first_family_in_range(families, only, from + 1);
        }
    }
}

proof fn lemma_first_family_in_range(families: Seq<QueueFamily>, only: bool, from: int)
    requires
        0 <= from <= families.len(),
    ensures
        match first_family(families, only, from) {
            Some(i) => from <= i < families.len() && computes(families[i]) && (!only || !draws(
                families[i],
            )),
            None => true,
        },
    decreases families.len() - from,
{
    if from < families.len() && !(computes(families[from]) && (!only || !draws(families[from]))) {
        lemma_first_family_in_range(families, only, from + 1);
    }
}

impl Candidate {
    /// How much the runtime prefers a device: cooperative matrices weigh more
    /// than being discrete, and bf16 decides among what is left.
    pub open spec fn score(self) -> int {
        (if has_coopmat(self.extensions@) {
            1000int
        } else {
            0
        }) + (if self.discrete {
            100int
        } else {
            0
        }) + (if has_bf16(self.extensions@) {
            1int
        } else {
            0
        })
    }

    pub open spec fn usable(self) -> bool {
        first_family(self.families@, false, 0) is Some
    }

    fn rank(&self) -> (r: u32)
        ensures
            r == self.score(),
    {
        let mut score: u32 = 0;
        if has(&self.extensions, "VK_KHR_cooperative_matrix") {
            score += 1000;
        }
        if self.discrete {
            score += 100;
        }
        if has(&self.extensions, "VK_KHR_shader_bfloat16") {
            score += 1;
        }
        score
    }
}

/// The best of the first `n` devices, the earliest among equals.
pub open spec fn best_of(devices: Seq<Candidate>, n: int) -> Option<int>
    decreases n,
{
    if n <= 0 {
        None
    } else if !devices[n - 1].usable() {
        best_of(devices, n - 1)
    } else {
        match best_of(devices, n - 1) {
            None => Some(n - 1),
            Some(i) => if devices[n - 1].score() > devices[i].score() {
                Some(n - 1)
            } else {
                Some(i)
            },
        }
    }
}

/// The best device can compute, no other that can is preferred to it, and none
/// before it is its equal; where there is none no device can compute.
pub proof fn law_best_device_is_the_first_best(devices: Seq<Candidate>, n: int)
    requires
        0 <= n <= devices.len(),
    ensures
        match best_of(devices, n) {
            Some(i) => {
                &&& 0 <= i < n
                &&& devices[i].usable()
                &&& forall|j: int|
                    0 <= j < n && (#[trigger] devices[j]).usable() ==> devices[j].score()
                        <= devices[i].score() && (j < i ==> devices[j].score()
                        < devices[i].score())
            },
            None => forall|j: int| 0 <= j < n ==> !(#[trigger] devices[j]).usable(),
        },
    decreases n,
{
    if n > 0 {
        law_best_device_is_the_first_best(devices, n - 1);
    }
}

/// The first discrete device with cooperative matrices and bf16 is opened where
/// there is one; else one with cooperative matrices where there is one.
pub proof fn law_selection_falls_back_by_capability(devices: Seq<Candidate>, j: int)
    requires
        0 <= j < devices.len(),
        devices[j].usable(),
        has_coopmat(devices[j].extensions@),
    ensures
        ({
            let best = best_of(devices, devices.len() as int);
            let full = |d: Candidate|
                d.discrete && has_coopmat(d.extensions@) && has_bf16(d.extensions@);
            &&& best is Some
            &&& has_coopmat(devices[best->0].extensions@)
            &&& full(devices[j]) ==> full(devices[best->0]) && best->0 <= j
        }),
{
    law_best_device_is_the_first_best(devices, devices.len() as int);
}

/// The device to open: the first discrete one with cooperative matrices and
/// bf16 where there is one, else one with cooperative matrices, else any that
/// can compute.
pub fn select_device(devices: &Vec<Candidate>) -> (r: Result<usize, AckError>)
    ensures
        if devices@.len() == 0 {
            r is Err && r->Err_0@ == Failure::NoDevice("no Vulkan physical devices"@)
        } else {
            match best_of(devices@, devices@.len() as int) {
                Some(i) => r is Ok && r->Ok_0 == i && 0 <= i < devices@.len(),
                None => r is Err && r->Err_0@ == Failure::NoDevice("no compute-capable device"@),
            }
        },
{
    if devices.len() == 0 {
        return Err(AckError::NoDevice(String::from_str("no Vulkan physical devices")));
    }
    let mut best: Option<(u32, usize)> = None;
    let mut i: usize = 0;
    while i < devices.len()
        invariant
            i <= devices.len(),
            match best {
                Some((s, b)) => best_of(devices@, i as int) == Some(b as int) && b < i && s
                    == devices@[b as int].score(),
                None => best_of(devices@, i as int) is None,
            },
        decreases devices.len() - i,
    {
        if find_family(&devices[i].families, false).is_some() {
            let score: u32 = devices[i].rank();
            let better: bool = match best {
                Some((s, _)) => score > s,
                None => true,
            };
            if better {
                best = Some((score, i));
            }
        }
        i += 1;
    }
    match best {
        Some((_, b)) => Ok(b),
        None => Err(AckError::NoDevice(String::from_str("no compute-capable device"))),
    }
}

/// The size of the largest device-local heap among the first `n`.
pub open spec fn local_bytes(heaps: Seq<Heap>, n: int) -> u64
    decreases n,
{
    if n <= 0 {
        0
    } else {
        let rest = local_bytes(heaps, n - 1);
        let h = heaps[n - 1];
        if h.flags & HEAP_DEVICE_LOCAL == HEAP_DEVICE_LOCAL && h.size > rest {
            h.size
        } else {
            rest
        }
    }
}

fn device_local_bytes(heaps: &Vec<Heap>) -> (r: u64)
    ensures
        r == local_bytes(heaps@, heaps@.len() as int),
{
    let mut best: u64 = 0;
    let mut i: usize = 0;
    while i < heaps.len()
        invariant
            i <= heaps.len(),
            best == local_bytes(heaps@, i as int),
        decreases heaps.len() - i,
    {
        if heaps[i].flags & HEAP_DEVICE_LOCAL == HEAP_DEVICE_LOCAL && heaps[i].size > best {
            best = heaps[i].size;
        }
        i += 1;
    }
    best
}

/// A device as it is to be opened.
#[derive(Debug)]
pub struct OpenPlan {
    pub report: DeviceReport,
    pub queue_family: u32,
    pub timestamp_valid_bits: u32,
    pub memory_types: Vec<u32>,
    pub limits: Limits,
    /// The features to enable.
    pub enabled: Features,
    pub coopmat_extension: bool,
    pub bf16_extension: bool,
}

impl DeviceFacts {
    /// The features the device has, an extension's only where it is listed: the
    /// bf16 features are asked for through the cooperative matrix ones.
    pub open spec fn declared(self) -> Features {
        let coop = has_coopmat(self.extensions@);
        let bf16 = coop && has_bf16(self.extensions@);
        Features {
            bf16_type: bf16 && self.features.bf16_type,
            bf16_dot_product: bf16 && self.features.bf16_dot_product,
            bf16_cooperative_matrix: bf16 && self.features.bf16_cooperative_matrix,
            cooperative_matrix: coop && self.features.cooperative_matrix,
            ..self.features
        }
    }

    /// The features to enable: those declared that the kernels use, subgroup
    /// size control only together with full subgroups.
    pub open spec fn enabling(self) -> Features {
        let control = self.features.subgroup_size_control && self.features.compute_full_subgroups;
        Features {
            shader_int16: true,
            storage_buffer_16bit: true,
            subgroup_size_control: control,
            compute_full_subgroups: control,
            ..self.declared()
        }
    }

    /// Why the device cannot be opened, where it cannot.
    pub open spec fn refusal(self) -> Option<Failure> {
        match chosen_family(self.families@) {
            None => Some(Failure::NoDevice("no compute queue family"@)),
            Some(i) => if self.families@[i].timestamp_valid_bits == 0 {
                Some(Failure::Unsupported("compute queue has no timestamp support"@))
            } else if !self.features.shader_int16 {
                Some(
                    Failure::Unsupported(
                        "device lacks shaderInt16, which the kit's f32->bf16 cast kernel declares (SPIR-V Int16)"@,
                    ),
                )
            } else if !self.features.storage_buffer_16bit {
                Some(
                    Failure::Unsupported(
                        "device lacks storageBuffer16BitAccess, which both kit cast kernels declare (SPIR-V StorageBuffer16BitAccess)"@,
                    ),
                )
            } else {
                None
            },
        }
    }

    /// A report says what the driver said.
    pub open spec fn reported(self, r: DeviceReport) -> bool {
        let declared = self.declared();
        &&& r.device_name@ == self.device_name@
        &&& r.api_version@ == version_text(self.api_version_raw)
        &&& r.driver_version_raw == self.driver_version_raw
        &&& r.driver_name@ == self.driver_name@
        &&& r.driver_info@ == self.driver_info@
        &&& r.subgroup_size == self.subgroup_size
        &&& r.timestamp_period_bits == self.timestamp_period_bits
        &&& r.bf16_type == declared.bf16_type
        &&& r.bf16_dot_product == declared.bf16_dot_product
        &&& r.bf16_cooperative_matrix == declared.bf16_cooperative_matrix
        &&& r.cooperative_matrix == declared.cooperative_matrix
        &&& r.shader_int16 == self.features.shader_int16
        &&& if has_coopmat(self.extensions@) {
            r.coopmat_shapes@.len() == self.coopmat_rows@.len() && forall|i: int|
                0 <= i < self.coopmat_rows@.len() ==> decodes(
                    #[trigger] r.coopmat_shapes@[i],
                    self.coopmat_rows@[i],
                )
        } else {
            r.coopmat_shapes@.len() == 0
        }
        &&& r.device_local_bytes == local_bytes(self.heaps@, self.heaps@.len() as int)
        &&& r.vendor_id == self.vendor_id
        &&& r.device_id == self.device_id
        &&& r.device_type == self.device_type
        &&& r.api_version_raw == self.api_version_raw
        &&& r.driver_id == self.driver_id
        &&& r.device_uuid == self.device_uuid
        &&& r.driver_uuid == self.driver_uuid
        &&& r.max_workgroup_invocations == self.max_workgroup_invocations
        &&& r.max_workgroup_size == self.max_workgroup_size
    }

    fn report(&self) -> (r: DeviceReport)
        ensures
            self.reported(r),
    {
        let coop: bool = has(&self.extensions, "VK_KHR_cooperative_matrix");
        let bf16: bool = coop && has(&self.extensions, "VK_KHR_shader_bfloat16");
        let coopmat_shapes: Vec<CoopmatShape> = if coop {
            decode_shapes(&self.coopmat_rows)
        } else {
            Vec::new()
        };
        DeviceReport {
            device_name: self.device_name.clone(),
            api_version: version(self.api_version_raw),
            driver_version_raw: self.driver_version_raw,
            driver_name: self.driver_name.clone(),
            driver_info: self.driver_info.clone(),
            subgroup_size: self.subgroup_size,
            timestamp_period_bits: self.timestamp_period_bits,
            bf16_type: bf16 && self.features.bf16_type,
            bf16_dot_product: bf16 && self.features.bf16_dot_product,
            bf16_cooperative_matrix: bf16 && self.features.bf16_cooperative_matrix,
            cooperative_matrix: coop && self.features.cooperative_matrix,
            shader_int16: self.features.shader_int16,
            coopmat_shapes,
            device_local_bytes: device_local_bytes(&self.heaps),
            vendor_id: self.vendor_id,
            device_id: self.device_id,
            device_type: self.device_type,
            api_version_raw: self.api_version_raw,
            driver_id: self.driver_id,
            device_uuid: self.device_uuid,
            driver_uuid: self.driver_uuid,
            max_workgroup_invocations: self.max_workgroup_invocations,
            max_workgroup_size: self.max_workgroup_size,
        }
    }

    /// A plan opens the device as the driver described it.
    pub open spec fn opened(self, p: OpenPlan) -> bool {
        let family = chosen_family(self.families@)->0;
        &&& self.reported(p.report)
        &&& p.queue_family == family
        &&& p.timestamp_valid_bits == self.families@[family].timestamp_valid_bits
        &&& p.memory_types@ == self.memory_types@
        &&& p.limits == self.limits
        &&& p.enabled == self.enabling()
        &&& p.coopmat_extension == has_coopmat(self.extensions@)
        &&& p.bf16_extension == has_bf16(self.extensions@)
    }

    /// Decide how the device is opened, or why it is not.
    pub fn plan(&self) -> (r: Result<OpenPlan, AckError>)
        requires
            self.families@.len() <= u32::MAX,
        ensures
            match self.refusal() {
                Some(failure) => r is Err && r->Err_0@ == failure,
                None => r is Ok && self.opened(r->Ok_0),
            },
    {
        let report = self.report();
        let family: usize = match find_family(&self.families, true) {
            Some(i) => i,
            None => match find_family(&self.families, false) {
                Some(i) => i,
                None => {
                    return Err(AckError::NoDevice(String::from_str("no compute queue family")));
                },
            },
        };
        let timestamp_valid_bits: u32 = self.families[family].timestamp_valid_bits;
        if timestamp_valid_bits == 0 {
            return Err(
                AckError::Unsupported(String::from_str("compute queue has no timestamp support")),
            );
        }
        if !self.features.shader_int16 {
            return Err(
                AckError::Unsupported(
                    String::from_str(
                        "device lacks shaderInt16, which the kit's f32->bf16 cast kernel declares (SPIR-V Int16)",
                    ),
                ),
            );
        }
        if !self.features.storage_buffer_16bit {
            return Err(
                AckError::Unsupported(
                    String::from_str(
                        "device lacks storageBuffer16BitAccess, which both kit cast kernels declare (SPIR-V StorageBuffer16BitAccess)",
                    ),
                ),
            );
        }
        let coop: bool = has(&self.extensions, "VK_KHR_cooperative_matrix");
        let bf16: bool = has(&self.extensions, "VK_KHR_shader_bfloat16");
        let control: bool = self.features.subgroup_size_control
            && self.features.compute_full_subgroups;
        let mut memory_types: Vec<u32> = Vec::new();
        memory_types.extend_from_slice(self.memory_types.as_slice());
        proof {
            assert(memory_types@ =~= self.memory_types@);
        }
        Ok(
            OpenPlan {
                report,
                queue_family: family as u32,
                timestamp_valid_bits,
                memory_types,
                limits: self.limits,
                enabled: Features {
                    bf16_type: coop && bf16 && self.features.bf16_type,
                    bf16_dot_product: coop && bf16 && self.features.bf16_dot_product,
                    bf16_cooperative_matrix: coop && bf16 && self.features.bf16_cooperative_matrix,
                    cooperative_matrix: coop && self.features.cooperative_matrix,
                    shader_int16: true,
                    storage_buffer_16bit: true,
                    shader_float16: self.features.shader_float16,
                    shader_int8: self.features.shader_int8,
                    memory_model: self.features.memory_model,
                    memory_model_device_scope: self.features.memory_model_device_scope,
                    host_query_reset: self.features.host_query_reset,
                    subgroup_size_control: control,
                    compute_full_subgroups: control,
                },
                coopmat_extension: coop,
                bf16_extension: bf16,
            },
        )
    }
}

/// The bytes that a device identity is hashed from hold the two ids, the two
/// UUIDs, the driver version and the API version, each at its own place.
pub proof fn law_identity_holds_its_parts(r: DeviceReport)
    ensures
        r.identity().len() == 48,
        word_at(r.identity(), 0) == r.vendor_id,
        word_at(r.identity(), 1) == r.device_id,
        r.identity().subrange(8, 24) == r.device_uuid@,
        r.identity().subrange(24, 40) == r.driver_uuid@,
        word_at(r.identity(), 10) == r.driver_version_raw,
        word_at(r.identity(), 11) == r.api_version_raw,
{
    let x = r.identity();
    assert(x.subrange(0, 4) =~= word_bytes(r.vendor_id));
    assert(x.subrange(4, 8) =~= word_bytes(r.device_id));
    assert(x.subrange(8, 24) =~= r.device_uuid@);
    assert(x.subrange(24, 40) =~= r.driver_uuid@);
    assert(x.subrange(40, 44) =~= word_bytes(r.driver_version_raw));
    assert(x.subrange(44, 48) =~= word_bytes(r.api_version_raw));
    crate::words::lemma_word_round_trip(r.vendor_id);
    crate::words::lemma_word_round_trip(r.device_id);
    crate::words::lemma_word_round_trip(r.driver_version_raw);
    crate::words::lemma_word_round_trip(r.api_version_raw);
}

/// A packed version is its major part times 4194304, its minor part times 4096
/// and its patch; the text spells the three with dots between.
pub proof fn law_version_text_spells_the_parts(major: u32, minor: u32, patch: u32, raw: u32)
    requires
        major < 128,
        minor < 1024,
        patch < 4096,
        raw == major * 4194304 + minor * 4096 + patch,
    ensures
        version_text(raw) == decimal_text(major as nat) + "."@ + decimal_text(minor as nat) + "."@
            + decimal_text(patch as nat),
{
    assert((raw >> 22) & 0x7f == major && (raw >> 12) & 0x3ff == minor && raw & 0xfff == patch)
        by (bit_vector)
        requires
            major < 128,
            minor < 1024,
            patch < 4096,
            raw == major * 4194304 + minor * 4096 + patch,
    ;
}

/// A family computes where the second of its flags is set and draws where the
/// first is; a heap is local to the device where its first flag is set.
pub proof fn law_queue_flags_are_bits(f: QueueFamily)
    ensures
        computes(f) <==> (f.flags / 2) % 2 == 1,
        draws(f) <==> f.flags % 2 == 1,
{
    let w: u32 = f.flags;
    assert((w & 2 == 2 <==> (w / 2) % 2 == 1) && (w & 1 == 1 <==> w % 2 == 1)) by (bit_vector);
}

/// The chosen family is the first that computes and does not draw, and where
/// there is none the first that computes.
pub proof fn law_chosen_family_is_the_first(families: Seq<QueueFamily>, j: int)
    requires
        0 <= j < families.len(),
        computes(families[j]),
        forall|i: int| 0 <= i < j ==> !(computes(#[trigger] families[i]) && !draws(families[i])),
        !draws(families[j]) || forall|i: int|
            0 <= i < families.len() ==> !(computes(#[trigger] families[i]) && (!draws(families[i])
                || i < j)),
    ensures
        chosen_family(families) == Some(j),
{
    if draws(families[j]) {
        lemma_no_family(families, true, 0);
        lemma_family_found(families, false, 0, j);
    } else {
        lemma_family_found(families, true, 0, j);
    }
}

proof fn lemma_family_found(families: Seq<QueueFamily>, only: bool, from: int, j: int)
    requires
        0 <= from <= j < families.len(),
        computes(families[j]) && (!only || !draws(families[j])),
        forall|i: int|
            from <= i < j ==> !(computes(#[trigger] families[i]) && (!only || !draws(families[i]))),
    ensures
        first_family(families, only, from) == Some(j),
    decreases j - from,
{
    if from < j {
        lemma_family_found(families, only, from + 1, j);
    }
}

proof fn lemma_no_family(families: Seq<QueueFamily>, only: bool, from: int)
    requires
        0 <= from,
        forall|i: int|
            from <= i < families.len() ==> !(computes(#[trigger] families[i]) && (!only || !draws(
                families[i],
            ))),
    ensures
        first_family(families, only, from) is None,
    decreases families.len() - from,
{
    if from < families.len() {
        lemma_no_family(families, only, from + 1);
    }
}

/// No family is chosen where none computes.
pub proof fn law_no_family_is_chosen_where_none_computes(families: Seq<QueueFamily>)
    requires
        forall|i: int| 0 <= i < families.len() ==> !computes(#[trigger] families[i]),
    ensures
        chosen_family(families) is None,
{
    lemma_no_family(families, true, 0);
    lemma_no_family(families, false, 0);
}

/// Cooperative matrices outweigh being discrete, being discrete outweighs bf16,
/// and of two devices that agree in what weighs more the one that has the rest
/// is preferred.
pub proof fn law_preference_is_by_capability(a: Candidate, b: Candidate)
    ensures
        has_coopmat(a.extensions@) && !has_coopmat(b.extensions@) ==> a.score() > b.score(),
        has_coopmat(a.extensions@) == has_coopmat(b.extensions@) && a.discrete && !b.discrete
            ==> a.score() > b.score(),
        has_coopmat(a.extensions@) == has_coopmat(b.extensions@) && a.discrete == b.discrete
            && has_bf16(a.extensions@) && !has_bf16(b.extensions@) ==> a.score() > b.score(),
        has_coopmat(a.extensions@) == has_coopmat(b.extensions@) && a.discrete == b.discrete
            && has_bf16(a.extensions@) == has_bf16(b.extensions@) ==> a.score() == b.score(),
{
}

/// A device can be used exactly where one of its families computes.
pub proof fn law_devices_that_compute_are_usable(d: Candidate)
    ensures
        d.usable() <==> exists|i: int|
            0 <= i < d.families@.len() && computes(#[trigger] d.families@[i]),
{
    if exists|i: int| 0 <= i < d.families@.len() && computes(#[trigger] d.families@[i]) {
        let i = choose|i: int| 0 <= i < d.families@.len() && computes(#[trigger] d.families@[i]);
        lemma_first_family(d.families@, false, 0, i);
    } else {
        lemma_no_family(d.families@, false, 0);
    }
}

/// The device-local bytes are those of the largest heap whose first flag is set,
/// and none where there is no such heap.
pub proof fn law_local_bytes_are_the_largest_local_heap(heaps: Seq<Heap>, n: int)
    requires
        0 <= n <= heaps.len(),
    ensures
        forall|i: int|
            0 <= i < n && (#[trigger] heaps[i]).flags % 2 == 1 ==> heaps[i].size <= local_bytes(
                heaps,
                n,
            ),
        local_bytes(heaps, n) == 0 || exists|i: int|
            0 <= i < n && (#[trigger] heaps[i]).flags % 2 == 1 && heaps[i].size == local_bytes(
                heaps,
                n,
            ),
    decreases n,
{
    if n > 0 {
        law_local_bytes_are_the_largest_local_heap(heaps, n - 1);
        let w: u32 = heaps[n - 1].flags;
        assert(w & 1 == 1 <==> w % 2 == 1) by (bit_vector);
        if local_bytes(heaps, n - 1) != 0 && local_bytes(heaps, n) == local_bytes(heaps, n - 1) {
            let i = choose|i: int|
                0 <= i < n - 1 && (#[trigger] heaps[i]).flags % 2 == 1 && heaps[i].size
                    == local_bytes(heaps, n - 1);
            assert(heaps[i].size == local_bytes(heaps, n));
        }
    }
}

/// Components and scopes have the names of the driver's numbers; a number
/// without a name is spelled.
pub proof fn law_component_and_scope_names(raw: i32)
    ensures
        component_type_text(0) == "float16"@ && component_type_text(1) == "float32"@
            && component_type_text(2) == "float64"@,
        component_type_text(3) == "sint8"@ && component_type_text(4) == "sint16"@
            && component_type_text(5) == "sint32"@ && component_type_text(6) == "sint64"@,
        component_type_text(7) == "uint8"@ && component_type_text(8) == "uint16"@
            && component_type_text(9) == "uint32"@ && component_type_text(10) == "uint64"@,
        component_type_text(1000141000) == "bfloat16"@,
        !(0 <= raw <= 10) && raw != 1000141000 ==> component_type_text(raw) == "component_type_"@
            + signed_text(raw as int),
        scope_text(1) == "device"@ && scope_text(2) == "workgroup"@ && scope_text(3)
            == "subgroup"@ && scope_text(5) == "queue_family"@,
        !(1 <= raw <= 3) && raw != 5 ==> scope_text(raw) == "scope_"@ + signed_text(raw as int),
{
}

/// A device is opened with cooperative matrices only where its extension is
/// listed, with bf16 only where both extensions are, with the two 16-bit
/// features in any case, and with subgroup size control exactly where full
/// subgroups come with it; what else it has is enabled as it is.
pub proof fn law_enabled_features_are_declared(d: DeviceFacts)
    ensures
        d.enabling().cooperative_matrix <==> has_coopmat(d.extensions@)
            && d.features.cooperative_matrix,
        d.enabling().bf16_type <==> has_coopmat(d.extensions@) && has_bf16(d.extensions@)
            && d.features.bf16_type,
        d.enabling().bf16_dot_product <==> has_coopmat(d.extensions@) && has_bf16(d.extensions@)
            && d.features.bf16_dot_product,
        d.enabling().bf16_cooperative_matrix <==> has_coopmat(d.extensions@) && has_bf16(
            d.extensions@,
        ) && d.features.bf16_cooperative_matrix,
        d.enabling().shader_int16 && d.enabling().storage_buffer_16bit,
        d.enabling().subgroup_size_control <==> d.features.subgroup_size_control
            && d.features.compute_full_subgroups,
        d.enabling().compute_full_subgroups <==> d.features.subgroup_size_control
            && d.features.compute_full_subgroups,
        d.enabling().shader_float16 == d.features.shader_float16,
        d.enabling().shader_int8 == d.features.shader_int8,
        d.enabling().memory_model == d.features.memory_model,
        d.enabling().memory_model_device_scope == d.features.memory_model_device_scope,
        d.enabling().host_query_reset == d.features.host_query_reset,
{
}

/// A device is opened exactly where a family computes, the chosen one has
/// timestamps, and both 16-bit features are there; else the refusal says what is
/// missing first.
pub proof fn law_devices_are_opened_exactly_when_able(d: DeviceFacts)
    ensures
        d.refusal() is None <==> {
            &&& exists|i: int| 0 <= i < d.families@.len() && computes(#[trigger] d.families@[i])
            &&& d.families@[chosen_family(d.families@)->0].timestamp_valid_bits > 0
            &&& d.features.shader_int16
            &&& d.features.storage_buffer_16bit
        },
        (forall|i: int| 0 <= i < d.families@.len() ==> !computes(#[trigger] d.families@[i]))
            ==> d.refusal() == Some(Failure::NoDevice("no compute queue family"@)),
        chosen_family(d.families@) is Some && d.families@[chosen_family(
            d.families@,
        )->0].timestamp_valid_bits == 0 ==> d.refusal() == Some(
            Failure::Unsupported("compute queue has no timestamp support"@),
        ),
        d.refusal() is Some && chosen_family(d.families@) is Some
            ==> d.refusal()->0 is Unsupported,
{
    if exists|i: int| 0 <= i < d.families@.len() && computes(#[trigger] d.families@[i]) {
        let i = choose|i: int| 0 <= i < d.families@.len() && computes(#[trigger] d.families@[i]);
        law_chosen_family_computes(d.families@, i);
    } else {
        law_no_family_is_chosen_where_none_computes(d.families@);
    }
}

/// An opened device is reported as its driver described it, and work goes to the
/// chosen family with that family's timestamps.
pub proof fn law_opened_device_is_as_described(d: DeviceFacts, p: OpenPlan, i: int)
    requires
        d.opened(p),
        d.refusal() is None,
        0 <= i < d.coopmat_rows@.len(),
    ensures
        p.queue_family == chosen_family(d.families@)->0,
        p.timestamp_valid_bits == d.families@[p.queue_family as int].timestamp_valid_bits,
        p.timestamp_valid_bits > 0,
        p.memory_types@ == d.memory_types@,
        p.limits == d.limits,
        p.coopmat_extension == has_coopmat(d.extensions@),
        p.bf16_extension == has_bf16(d.extensions@),
        p.report.device_name@ == d.device_name@,
        p.report.driver_name@ == d.driver_name@,
        p.report.driver_info@ == d.driver_info@,
        p.report.vendor_id == d.vendor_id,
        p.report.device_id == d.device_id,
        p.report.device_type == d.device_type,
        p.report.driver_id == d.driver_id,
        p.report.driver_version_raw == d.driver_version_raw,
        p.report.api_version_raw == d.api_version_raw,
        p.report.device_uuid@ == d.device_uuid@,
        p.report.driver_uuid@ == d.driver_uuid@,
        p.report.subgroup_size == d.subgroup_size,
        p.report.timestamp_period_bits == d.timestamp_period_bits,
        p.report.max_workgroup_invocations == d.max_workgroup_invocations,
        p.report.max_workgroup_size == d.max_workgroup_size,
        p.report.shader_int16,
        p.report.bf16_type == p.enabled.bf16_type,
        p.report.bf16_dot_product == p.enabled.bf16_dot_product,
        p.report.bf16_cooperative_matrix == p.enabled.bf16_cooperative_matrix,
        p.report.cooperative_matrix == p.enabled.cooperative_matrix,
        !has_coopmat(d.extensions@) ==> p.report.coopmat_shapes@.len() == 0,
        has_coopmat(d.extensions@) ==> {
            let shape = p.report.coopmat_shapes@[i];
            let row = d.coopmat_rows@[i];
            &&& p.report.coopmat_shapes@.len() == d.coopmat_rows@.len()
            &&& shape.m == row.m && shape.n == row.n && shape.k == row.k
            &&& shape.a_type@ == component_type_text(row.a_type)
            &&& shape.b_type@ == component_type_text(row.b_type)
            &&& shape.c_type@ == component_type_text(row.c_type)
            &&& shape.result_type@ == component_type_text(row.result_type)
            &&& shape.scope@ == scope_text(row.scope)
            &&& shape.saturating == row.saturating
        },
{
}

/// The extensions that a device is asked for are named as the driver names them.
pub proof fn law_extensions_are_listed_by_name(names: Seq<String>)
    ensures
        has_coopmat(names) <==> exists|i: int|
            0 <= i < names.len() && (#[trigger] names[i])@ == "VK_KHR_cooperative_matrix"@,
        has_bf16(names) <==> exists|i: int|
            0 <= i < names.len() && (#[trigger] names[i])@ == "VK_KHR_shader_bfloat16"@,
{
}

} // verus!
