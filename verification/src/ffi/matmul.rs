//! The BF16 product entries and the casts between f32 and bf16.

use super::device::{
    answer, device_refusal, found_model, one_launch, open_device, run_one, AckDevice, DeviceModel,
    LaunchModel, Slot, Step, StepModel,
};
use super::reason::{first, unless, Reason, Refusal, Room};
use super::{ACK_ERR_SHAPE, ACK_ERR_SIZE, ACK_ERR_UNSUPPORTED_OP, K_MULTIPLE, TILE};
use crate::arith::{ceil_div, div_ceil, lemma_ceil_div_covers};
use crate::batch::AccessKind;
use crate::context::Buffer;
use crate::words::{law_words_read_back, word_at, words_bytes, words_to_bytes};
use vstd::prelude::*;

verus! {

/// Every device holds a z grid of at least this many workgroups.
pub const MAX_GRID_Z: u32 = 65_535;

/// The aligned modules read eight elements at a time.
pub const Z_STRIDE_MULTIPLE: u32 = 8;

/// Elements one workgroup of a cast converts.
pub const CAST_ELEMENTS_PER_GROUP: u32 = 1_024;

/// A BF16 product `C = op(A) . op(B)` over a z grid: in mode 0, `z` products
/// through per-z operand offsets; in mode 1, `z` splits of K that write partial
/// products. `lda` and `ldb` are the stored row pitches, or 0 for the width.
#[derive(Clone, Copy, Debug, PartialEq, Eq, Structural)]
pub struct Product {
    pub m: u32,
    pub n: u32,
    pub k: u32,
    /// A is stored as K rows of M.
    pub a_t: bool,
    /// B is stored as N rows of K.
    pub b_t: bool,
    pub z: u32,
    pub zmode: u32,
    pub za: u32,
    pub zb: u32,
    pub zc: u32,
    pub kz: u32,
    pub lda: u32,
    pub ldb: u32,
}

impl Product {
    /// One product, with every z word zero.
    pub open spec fn single(m: u32, n: u32, k: u32, a_t: bool, b_t: bool) -> Product {
        Product {
            m,
            n,
            k,
            a_t,
            b_t,
            z: 1,
            zmode: 0,
            za: 0,
            zb: 0,
            zc: 0,
            kz: 0,
            lda: 0,
            ldb: 0,
        }
    }

    /// The product is one on its own, with every z word zero.
    pub open spec fn is_single(self) -> bool {
        self == Product::single(self.m, self.n, self.k, self.a_t, self.b_t)
    }

    pub open spec fn a_rows(self) -> u32 {
        if self.a_t {
            self.k
        } else {
            self.m
        }
    }

    pub open spec fn a_cols(self) -> u32 {
        if self.a_t {
            self.m
        } else {
            self.k
        }
    }

    pub open spec fn b_rows(self) -> u32 {
        if self.b_t {
            self.n
        } else {
            self.k
        }
    }

    pub open spec fn b_cols(self) -> u32 {
        if self.b_t {
            self.k
        } else {
            self.n
        }
    }

    /// The row pitch of A.
    pub open spec fn pitch_a(self) -> u32 {
        if self.lda == 0 {
            self.a_cols()
        } else {
            self.lda
        }
    }

    /// The row pitch of B.
    pub open spec fn pitch_b(self) -> u32 {
        if self.ldb == 0 {
            self.b_cols()
        } else {
            self.ldb
        }
    }

    pub open spec fn block(self) -> int {
        self.m * self.n
    }

    /// Refuse a product without elements.
    pub open spec fn empty(self) -> Option<Refusal> {
        unless(
            self.m != 0 && self.n != 0 && self.k != 0,
            ACK_ERR_SHAPE,
            Reason::ZeroDimension { m: self.m, n: self.n, k: self.k },
        )
    }

    /// Refuse the strides of a grid: the splits must cover K, and no two
    /// products or partial products may overlap.
    pub open spec fn strides(self) -> Option<Refusal> {
        if self.zmode == 1 {
            first(
                unless(self.za == 0 && self.zb == 0, ACK_ERR_SHAPE, Reason::SplitStrides),
                first(
                    unless(
                        self.kz != 0 && self.kz * self.z >= self.k,
                        ACK_ERR_SHAPE,
                        Reason::SplitCover { z: self.z, kz: self.kz, k: self.k },
                    ),
                    unless(
                        self.zc >= self.block(),
                        ACK_ERR_SHAPE,
                        Reason::PartialsOverlap { zc: self.zc, m: self.m, n: self.n },
                    ),
                ),
            )
        } else {
            unless(
                self.z <= 1 || (self.za >= self.a_cols() && self.zb >= self.b_cols() && self.zc
                    >= self.block()),
                ACK_ERR_SHAPE,
                Reason::ZStrides {
                    za: self.za,
                    zb: self.zb,
                    zc: self.zc,
                    a_cols: self.a_cols(),
                    b_cols: self.b_cols(),
                    m: self.m,
                    n: self.n,
                },
            )
        }
    }

    /// Refuse the request before any device is looked up.
    pub open spec fn refusal(self) -> Option<Refusal> {
        first(
            self.empty(),
            first(
                unless(
                    1 <= self.z <= MAX_GRID_Z,
                    ACK_ERR_SHAPE,
                    Reason::GridZ { z: self.z },
                ),
                first(
                    unless(
                        self.zmode <= 1,
                        ACK_ERR_SHAPE,
                        Reason::ZMode { zmode: self.zmode },
                    ),
                    first(
                        unless(
                            self.pitch_a() >= self.a_cols() && self.pitch_b() >= self.b_cols(),
                            ACK_ERR_SHAPE,
                            Reason::Pitch {
                                lda: self.pitch_a(),
                                ldb: self.pitch_b(),
                                a_cols: self.a_cols(),
                                b_cols: self.b_cols(),
                            },
                        ),
                        self.strides(),
                    ),
                ),
            ),
        )
    }

    /// A shape off the tile, which the bounds-checked modules run.
    pub open spec fn off_tile(self) -> bool {
        self.m % TILE != 0 || self.n % TILE != 0 || self.k % K_MULTIPLE != 0
    }

    /// A grid that the bounds-checked modules run: off the tile, or with a pitch,
    /// a stride or a split that the aligned modules cannot read.
    pub open spec fn edge(self) -> bool {
        ||| self.off_tile()
        ||| self.pitch_a() % Z_STRIDE_MULTIPLE != 0
        ||| self.pitch_b() % Z_STRIDE_MULTIPLE != 0
        ||| self.zmode == 0 && (self.za % Z_STRIDE_MULTIPLE != 0 || self.zb % Z_STRIDE_MULTIPLE
            != 0)
        ||| self.zmode == 1 && self.kz % K_MULTIPLE != 0
    }

    /// Elements from the first of A to one past its last.
    pub open spec fn a_extent(self) -> int {
        (if self.zmode == 1 {
            0
        } else {
            (self.z - 1) * self.za
        }) + (self.a_rows() - 1) * self.pitch_a() + self.a_cols()
    }

    /// Elements from the first of B to one past its last.
    pub open spec fn b_extent(self) -> int {
        (if self.zmode == 1 {
            0
        } else {
            (self.z - 1) * self.zb
        }) + (self.b_rows() - 1) * self.pitch_b() + self.b_cols()
    }

    /// Elements from the first of C to one past its last.
    pub open spec fn c_extent(self) -> int {
        (self.z - 1) * self.zc + self.block()
    }

    /// The kernel for the layouts, aligned or edge.
    pub open spec fn slot(self, edge: bool) -> Slot {
        Slot::Coopmat(
            ((if edge {
                4int
            } else {
                0
            }) + (if self.a_t {
                2int
            } else {
                0
            }) + (if self.b_t {
                1int
            } else {
                0
            })) as u32,
        )
    }

    /// The grid of tiles.
    pub open spec fn groups(self) -> Seq<u32> {
        seq![
            ceil_div(self.n as int, TILE as int) as u32,
            ceil_div(self.m as int, TILE as int) as u32,
            self.z,
        ]
    }

    /// The words of the push block, with the given pitches.
    pub open spec fn push_words(self, lda: u32, ldb: u32) -> Seq<u32> {
        seq![
            self.m,
            self.n,
            self.k,
            self.zmode,
            self.za,
            self.zb,
            self.zc,
            self.kz,
            lda,
            ldb,
        ]
    }

    /// What buffers hold against what they would have to hold.
    pub open spec fn room(self, a: u64, b: u64, c: u64) -> Room {
        Room {
            a,
            need_a: (self.a_extent() * 2) as u128,
            b,
            need_b: (self.b_extent() * 2) as u128,
            c,
            need_c: (self.c_extent() * 4) as u128,
        }
    }

    /// The buffers hold the operands and the result.
    pub open spec fn fits(self, a: u64, b: u64, c: u64) -> bool {
        a >= self.a_extent() * 2 && b >= self.b_extent() * 2 && c >= self.c_extent() * 4
    }
}

/// A product's request on a device's buffers.
pub ghost struct ProductCall {
    pub device: DeviceModel,
    pub a: u64,
    pub b: u64,
    pub c: u64,
    pub product: Product,
}

impl ProductCall {
    pub open spec fn handles(self) -> Option<Refusal> {
        self.device.three_refused(self.a, self.b, self.c)
    }

    /// Refuse buffers that do not hold the product.
    pub open spec fn sizes(self, reason: Reason) -> Option<Refusal> {
        let d = self.device;
        unless(
            self.product.fits(
                d.buffer(self.a).bytes,
                d.buffer(self.b).bytes,
                d.buffer(self.c).bytes,
            ),
            ACK_ERR_SIZE,
            reason,
        )
    }

    pub open spec fn room(self) -> Room {
        let d = self.device;
        self.product.room(
            d.buffer(self.a).bytes,
            d.buffer(self.b).bytes,
            d.buffer(self.c).bytes,
        )
    }

    pub open spec fn available(self, edge: bool) -> Option<Refusal> {
        unless(self.device.has(self.product.slot(edge)), ACK_ERR_UNSUPPORTED_OP, Reason::NoBf16)
    }

    /// The launch of the product.
    pub open spec fn launch(self, edge: bool, lda: u32, ldb: u32) -> LaunchModel {
        self.device.launch(
            self.product.slot(edge),
            seq![self.a, self.b, self.c],
            2,
            words_bytes(self.product.push_words(lda, ldb)),
            self.product.groups(),
        )
    }

    /// The refusal of a single product, if it is refused.
    pub open spec fn single_refusal(self) -> Option<Refusal> {
        let p = self.product;
        first(
            self.handles(),
            first(
                self.sizes(Reason::SmallOperands { m: p.m, n: p.n, k: p.k, room: self.room() }),
                self.available(p.off_tile()),
            ),
        )
    }

    /// What a single product on an open device is answered.
    pub open spec fn single_answer(self) -> Result<StepModel, Refusal> {
        match self.single_refusal() {
            Some(refusal) => Err(refusal),
            None => Ok(run_one(self.launch(self.product.off_tile(), 0, 0))),
        }
    }

    /// The output is neither operand's buffer.
    pub open spec fn apart(self) -> bool {
        let d = self.device;
        d.buffer(self.c).id != d.buffer(self.a).id && d.buffer(self.c).id != d.buffer(self.b).id
    }

    /// The refusal of a z grid, if it is refused. A grid of one product is that
    /// product, whose output may be an operand's buffer; a wider one's may not.
    pub open spec fn grid_refusal(self) -> Option<Refusal> {
        let p = self.product;
        first(
            self.handles(),
            first(
                unless(self.apart() || p.is_single(), ACK_ERR_SHAPE, Reason::SharedOutput),
                first(
                    self.sizes(
                        Reason::SmallBatch {
                            z: p.z,
                            m: p.m,
                            n: p.n,
                            k: p.k,
                            zmode: p.zmode,
                            room: self.room(),
                        },
                    ),
                    self.available(p.edge()),
                ),
            ),
        )
    }

    /// What a z grid on an open device is answered.
    pub open spec fn grid_answer(self) -> Result<StepModel, Refusal> {
        match self.grid_refusal() {
            Some(refusal) => Err(refusal),
            None => Ok(
                run_one(
                    self.launch(self.product.edge(), self.product.pitch_a(), self.product.pitch_b()),
                ),
            ),
        }
    }
}

/// The modules' push block for one dispatch.
pub fn coopmat_push(p: &Product, lda: u32, ldb: u32) -> (r: Vec<u8>)
    ensures
        r@ == words_bytes(p.push_words(lda, ldb)),
        r@.len() == 40,
        word_at(r@, 0) == p.m,
        word_at(r@, 1) == p.n,
        word_at(r@, 2) == p.k,
        word_at(r@, 3) == p.zmode,
        word_at(r@, 4) == p.za,
        word_at(r@, 5) == p.zb,
        word_at(r@, 6) == p.zc,
        word_at(r@, 7) == p.kz,
        word_at(r@, 8) == lda,
        word_at(r@, 9) == ldb,
{
    let words: [u32; 10] = [p.m, p.n, p.k, p.zmode, p.za, p.zb, p.zc, p.kz, lda, ldb];
    proof {
        assert(words@ =~= p.push_words(lda, ldb));
        law_words_read_back(words@);
    }
    words_to_bytes(&words)
}

/// A product of two words.
fn area(a: u32, b: u32) -> (r: u128)
    ensures
        r == a * b,
        r <= 0xffff_fffe_0000_0001,
{
    proof {
        assert(0 <= a * b <= 0xffff_ffff * 0xffff_ffff) by (nonlinear_arith)
            requires
                0 <= a <= 0xffff_ffff,
                0 <= b <= 0xffff_ffff,
        ;
    }
    (a as u128) * (b as u128)
}

/// What buffers hold against what they would have to hold, and whether they do.
fn measure(p: &Product, pitch_a: u32, pitch_b: u32, a: u64, b: u64, c: u64) -> (r: (Room, bool))
    requires
        p.z >= 1,
        p.m >= 1,
        p.n >= 1,
        p.k >= 1,
        pitch_a == p.pitch_a(),
        pitch_b == p.pitch_b(),
    ensures
        r.0 == p.room(a, b, c),
        r.1 == p.fits(a, b, c),
{
    let (a_rows, a_cols) = if p.a_t {
        (p.k, p.m)
    } else {
        (p.m, p.k)
    };
    let (b_rows, b_cols) = if p.b_t {
        (p.n, p.k)
    } else {
        (p.k, p.n)
    };
    let last: u32 = p.z - 1;
    let skip_a: u128 = if p.zmode == 1 {
        0
    } else {
        area(last, p.za)
    };
    let skip_b: u128 = if p.zmode == 1 {
        0
    } else {
        area(last, p.zb)
    };
    let need_a: u128 = (skip_a + area(a_rows - 1, pitch_a) + a_cols as u128) * 2;
    let need_b: u128 = (skip_b + area(b_rows - 1, pitch_b) + b_cols as u128) * 2;
    let need_c: u128 = (area(last, p.zc) + area(p.m, p.n)) * 4;
    let fits: bool = a as u128 >= need_a && b as u128 >= need_b && c as u128 >= need_c;
    (Room { a, need_a, b, need_b, c, need_c }, fits)
}

fn layout_slot(p: &Product, edge: bool) -> (r: Slot)
    ensures
        r == p.slot(edge),
        r.valid(),
{
    let base: u32 = if edge {
        4
    } else {
        0
    };
    let left: u32 = if p.a_t {
        2
    } else {
        0
    };
    let right: u32 = if p.b_t {
        1
    } else {
        0
    };
    Slot::Coopmat(base + left + right)
}

/// Refuse a product without elements.
fn check_empty(p: &Product) -> (r: Result<(), Refusal>)
    ensures
        match p.empty() {
            Some(refusal) => r is Err && r->Err_0 == refusal,
            None => r is Ok,
        },
{
    if p.m == 0 || p.n == 0 || p.k == 0 {
        return Err(
            Refusal {
                code: ACK_ERR_SHAPE,
                reason: Reason::ZeroDimension { m: p.m, n: p.n, k: p.k },
            },
        );
    }
    Ok(())
}

/// The launch of a product whose handles were resolved.
fn product_launch(d: &AckDevice, handles: [u64; 3], p: &Product, edge: bool, lda: u32, ldb: u32) -> (r:
    Step)
    requires
        d@.three_refused(handles@[0], handles@[1], handles@[2]) is None,
    ensures
        r@ == run_one(
            (ProductCall {
                device: d@,
                a: handles@[0],
                b: handles@[1],
                c: handles@[2],
                product: *p,
            }).launch(edge, lda, ldb),
        ),
{
    let groups: [u32; 3] = [div_ceil(p.n, TILE), div_ceil(p.m, TILE), p.z];
    proof {
        assert(groups@ =~= p.groups());
        assert(handles@ =~= seq![handles@[0], handles@[1], handles@[2]]);
    }
    one_launch(
        d.launch_on(layout_slot(p, edge), &handles, 2, coopmat_push(p, lda, ldb), groups),
    )
}

/// `C[M,N] = op(A) . op(B)` with BF16 operands and an f32 result. Shapes off the
/// tile run the bounds-checked modules.
pub fn ack_matmul_bf16(
    dev: u64,
    found: Option<&AckDevice>,
    handles: [u64; 3],
    m: u32,
    n: u32,
    k: u32,
    a_t: i32,
    b_t: i32,
) -> (r: Result<Step, Refusal>)
    requires
        found matches Some(d) ==> d.wf(),
    ensures
        ({
            let product = Product::single(m, n, k, a_t != 0, b_t != 0);
            match first(product.empty(), device_refusal(dev, found_model(found))) {
                Some(refusal) => answer(r) == Err::<StepModel, Refusal>(refusal),
                None => answer(r) == (ProductCall {
                    device: found_model(found)->0,
                    a: handles@[0],
                    b: handles@[1],
                    c: handles@[2],
                    product,
                }).single_answer(),
            }
        }),
{
    let p = Product {
        m,
        n,
        k,
        a_t: a_t != 0,
        b_t: b_t != 0,
        z: 1,
        zmode: 0,
        za: 0,
        zb: 0,
        zc: 0,
        kz: 0,
        lda: 0,
        ldb: 0,
    };
    match check_empty(&p) {
        Ok(()) => {},
        Err(refusal) => {
            return Err(refusal);
        },
    }
    let edge: bool = m % TILE != 0 || n % TILE != 0 || k % K_MULTIPLE != 0;
    let d: &AckDevice = match open_device(dev, found) {
        Ok(d) => d,
        Err(refusal) => {
            return Err(refusal);
        },
    };
    let a: &Buffer = match d.buffer_of(handles[0]) {
        Ok(b) => b,
        Err(refusal) => {
            return Err(refusal);
        },
    };
    let b: &Buffer = match d.buffer_of(handles[1]) {
        Ok(b) => b,
        Err(refusal) => {
            return Err(refusal);
        },
    };
    let c: &Buffer = match d.buffer_of(handles[2]) {
        Ok(b) => b,
        Err(refusal) => {
            return Err(refusal);
        },
    };
    let (room, fits) = measure(
        &p,
        if p.a_t {
            m
        } else {
            k
        },
        if p.b_t {
            k
        } else {
            n
        },
        a.size(),
        b.size(),
        c.size(),
    );
    if !fits {
        return Err(
            Refusal { code: ACK_ERR_SIZE, reason: Reason::SmallOperands { m, n, k, room } },
        );
    }
    if !d.holds(layout_slot(&p, edge)) {
        return Err(Refusal { code: ACK_ERR_UNSUPPORTED_OP, reason: Reason::NoBf16 });
    }
    Ok(product_launch(d, handles, &p, edge, 0, 0))
}

/// The pitches of a product's operands.
fn pitches(p: &Product) -> (r: (u32, u32))
    ensures
        r == (p.pitch_a(), p.pitch_b()),
{
    let a_cols: u32 = if p.a_t {
        p.m
    } else {
        p.k
    };
    let b_cols: u32 = if p.b_t {
        p.k
    } else {
        p.n
    };
    let lda: u32 = if p.lda == 0 {
        a_cols
    } else {
        p.lda
    };
    let ldb: u32 = if p.ldb == 0 {
        b_cols
    } else {
        p.ldb
    };
    (lda, ldb)
}

/// Refuse a z grid before any device is looked up.
fn check_grid(p: &Product) -> (r: Result<(), Refusal>)
    ensures
        match p.refusal() {
            Some(refusal) => r is Err && r->Err_0 == refusal,
            None => r is Ok,
        },
{
    match check_empty(p) {
        Ok(()) => {},
        Err(refusal) => {
            return Err(refusal);
        },
    }
    if p.z == 0 || p.z > MAX_GRID_Z {
        return Err(Refusal { code: ACK_ERR_SHAPE, reason: Reason::GridZ { z: p.z } });
    }
    if p.zmode > 1 {
        return Err(Refusal { code: ACK_ERR_SHAPE, reason: Reason::ZMode { zmode: p.zmode } });
    }
    let a_cols: u32 = if p.a_t {
        p.m
    } else {
        p.k
    };
    let b_cols: u32 = if p.b_t {
        p.k
    } else {
        p.n
    };
    let (lda, ldb) = pitches(p);
    if lda < a_cols || ldb < b_cols {
        return Err(
            Refusal { code: ACK_ERR_SHAPE, reason: Reason::Pitch { lda, ldb, a_cols, b_cols } },
        );
    }
    let block: u128 = area(p.m, p.n);
    if p.zmode == 1 {
        if p.za != 0 || p.zb != 0 {
            return Err(Refusal { code: ACK_ERR_SHAPE, reason: Reason::SplitStrides });
        }
        if p.kz == 0 || area(p.kz, p.z) < p.k as u128 {
            return Err(
                Refusal {
                    code: ACK_ERR_SHAPE,
                    reason: Reason::SplitCover { z: p.z, kz: p.kz, k: p.k },
                },
            );
        }
        if (p.zc as u128) < block {
            return Err(
                Refusal {
                    code: ACK_ERR_SHAPE,
                    reason: Reason::PartialsOverlap { zc: p.zc, m: p.m, n: p.n },
                },
            );
        }
    } else if p.z > 1 && (p.za < a_cols || p.zb < b_cols || (p.zc as u128) < block) {
        return Err(
            Refusal {
                code: ACK_ERR_SHAPE,
                reason: Reason::ZStrides {
                    za: p.za,
                    zb: p.zb,
                    zc: p.zc,
                    a_cols,
                    b_cols,
                    m: p.m,
                    n: p.n,
                },
            },
        );
    }
    Ok(())
}

/// The BF16 product over a z grid: a batch of products, or splits of K that
/// write partial products for the caller to sum.
/// One product with every z word zero is `ack_matmul_bf16`.
pub fn ack_matmul_bf16_z(
    dev: u64,
    found: Option<&AckDevice>,
    handles: [u64; 3],
    product: Product,
) -> (r: Result<Step, Refusal>)
    requires
        found matches Some(d) ==> d.wf(),
    ensures
        match first(product.refusal(), device_refusal(dev, found_model(found))) {
            Some(refusal) => answer(r) == Err::<StepModel, Refusal>(refusal),
            None => answer(r) == (ProductCall {
                device: found_model(found)->0,
                a: handles@[0],
                b: handles@[1],
                c: handles@[2],
                product,
            }).grid_answer(),
        },
{
    let p = product;
    match check_grid(&p) {
        Ok(()) => {},
        Err(refusal) => {
            return Err(refusal);
        },
    }
    let (lda, ldb) = pitches(&p);
    let edge: bool = p.m % TILE != 0 || p.n % TILE != 0 || p.k % K_MULTIPLE != 0 || lda
        % Z_STRIDE_MULTIPLE != 0 || ldb % Z_STRIDE_MULTIPLE != 0 || (p.zmode == 0 && (p.za
        % Z_STRIDE_MULTIPLE != 0 || p.zb % Z_STRIDE_MULTIPLE != 0)) || (p.zmode == 1 && p.kz
        % K_MULTIPLE != 0);
    let d: &AckDevice = match open_device(dev, found) {
        Ok(d) => d,
        Err(refusal) => {
            return Err(refusal);
        },
    };
    let a: &Buffer = match d.buffer_of(handles[0]) {
        Ok(b) => b,
        Err(refusal) => {
            return Err(refusal);
        },
    };
    let b: &Buffer = match d.buffer_of(handles[1]) {
        Ok(b) => b,
        Err(refusal) => {
            return Err(refusal);
        },
    };
    let c: &Buffer = match d.buffer_of(handles[2]) {
        Ok(b) => b,
        Err(refusal) => {
            return Err(refusal);
        },
    };
    let single: bool = p.z == 1 && p.zmode == 0 && p.za == 0 && p.zb == 0 && p.zc == 0 && p.kz == 0
        && p.lda == 0 && p.ldb == 0;
    if !single && (c.id() == a.id() || c.id() == b.id()) {
        return Err(Refusal { code: ACK_ERR_SHAPE, reason: Reason::SharedOutput });
    }
    let (room, fits) = measure(&p, lda, ldb, a.size(), b.size(), c.size());
    if !fits {
        return Err(
            Refusal {
                code: ACK_ERR_SIZE,
                reason: Reason::SmallBatch {
                    z: p.z,
                    m: p.m,
                    n: p.n,
                    k: p.k,
                    zmode: p.zmode,
                    room,
                },
            },
        );
    }
    if !d.holds(layout_slot(&p, edge)) {
        return Err(Refusal { code: ACK_ERR_UNSUPPORTED_OP, reason: Reason::NoBf16 });
    }
    Ok(product_launch(d, handles, &p, edge, lda, ldb))
}

/// A cast of `n` elements between two buffers: mode 0 from f32 to bf16, mode 1
/// back.
pub ghost struct CastCall {
    pub device: DeviceModel,
    pub src: u64,
    pub dst: u64,
    pub n: u64,
    pub mode: i32,
}

/// Refuse a cast before any device is looked up.
pub open spec fn cast_refusal(n: u64, mode: i32) -> Option<Refusal> {
    unless(
        1 <= n <= u32::MAX && (mode == 0 || mode == 1),
        ACK_ERR_SHAPE,
        Reason::Cast { n, mode },
    )
}

impl CastCall {
    pub open spec fn src_bytes(self) -> int {
        if self.mode == 0 {
            self.n * 4
        } else {
            self.n * 2
        }
    }

    pub open spec fn dst_bytes(self) -> int {
        if self.mode == 0 {
            self.n * 2
        } else {
            self.n * 4
        }
    }

    /// The refusal of the cast, if it is refused.
    pub open spec fn refusal(self) -> Option<Refusal> {
        let d = self.device;
        first(
            d.handle_refusal(self.src),
            first(
                d.handle_refusal(self.dst),
                first(
                    unless(
                        d.buffer(self.src).bytes >= self.src_bytes() && d.buffer(self.dst).bytes
                            >= self.dst_bytes(),
                        ACK_ERR_SIZE,
                        Reason::CastSmall { n: self.n, mode: self.mode },
                    ),
                    unless(
                        d.has(Slot::Cast(self.mode as u32)),
                        ACK_ERR_UNSUPPORTED_OP,
                        Reason::NoCast,
                    ),
                ),
            ),
        )
    }

    pub open spec fn launch(self) -> LaunchModel {
        self.device.launch(
            Slot::Cast(self.mode as u32),
            seq![self.src, self.dst],
            1,
            words_bytes(seq![self.n as u32]),
            seq![ceil_div(self.n as int, CAST_ELEMENTS_PER_GROUP as int) as u32, 1u32, 1u32],
        )
    }

    pub open spec fn answer(self) -> Result<StepModel, Refusal> {
        match self.refusal() {
            Some(refusal) => Err(refusal),
            None => Ok(run_one(self.launch())),
        }
    }
}

/// Elementwise cast of `n` elements: `mode` 0 is f32 to bf16, 1 is bf16 to f32.
pub fn ack_cast(
    dev: u64,
    found: Option<&AckDevice>,
    src: u64,
    dst: u64,
    n: u64,
    mode: i32,
) -> (r: Result<Step, Refusal>)
    requires
        found matches Some(d) ==> d.wf(),
    ensures
        match first(cast_refusal(n, mode), device_refusal(dev, found_model(found))) {
            Some(refusal) => answer(r) == Err::<StepModel, Refusal>(refusal),
            None => answer(r) == (CastCall {
                device: found_model(found)->0,
                src,
                dst,
                n,
                mode,
            }).answer(),
        },
{
    if n == 0 || n > u32::MAX as u64 || !(mode == 0 || mode == 1) {
        return Err(Refusal { code: ACK_ERR_SHAPE, reason: Reason::Cast { n, mode } });
    }
    let d: &AckDevice = match open_device(dev, found) {
        Ok(d) => d,
        Err(refusal) => {
            return Err(refusal);
        },
    };
    let ghost call = CastCall { device: d@, src, dst, n, mode };
    let from: &Buffer = match d.buffer_of(src) {
        Ok(b) => b,
        Err(refusal) => {
            return Err(refusal);
        },
    };
    let to: &Buffer = match d.buffer_of(dst) {
        Ok(b) => b,
        Err(refusal) => {
            return Err(refusal);
        },
    };
    let (src_bytes, dst_bytes) = if mode == 0 {
        (n * 4, n * 2)
    } else {
        (n * 2, n * 4)
    };
    if from.size() < src_bytes || to.size() < dst_bytes {
        return Err(Refusal { code: ACK_ERR_SIZE, reason: Reason::CastSmall { n, mode } });
    }
    let slot = Slot::Cast(mode as u32);
    if !d.holds(slot) {
        return Err(Refusal { code: ACK_ERR_UNSUPPORTED_OP, reason: Reason::NoCast });
    }
    let words: [u32; 1] = [n as u32];
    let handles: [u64; 2] = [src, dst];
    let groups: [u32; 3] = [div_ceil(n as u32, CAST_ELEMENTS_PER_GROUP), 1, 1];
    proof {
        assert(words@ =~= seq![n as u32]);
        assert(handles@ =~= seq![src, dst]);
        assert(groups@ =~= call.launch().groups);
    }
    Ok(one_launch(d.launch_on(slot, &handles, 1, words_to_bytes(&words), groups)))
}

/// A single product needs its dense operands and result, and no more.
pub proof fn law_single_product_is_dense(m: u32, n: u32, k: u32, a_t: bool, b_t: bool)
    ensures
        ({
            let p = Product::single(m, n, k, a_t, b_t);
            &&& p.a_extent() == m * k
            &&& p.b_extent() == k * n
            &&& p.c_extent() == m * n
        }),
{
    let p = Product::single(m, n, k, a_t, b_t);
    assert((p.a_rows() - 1) * p.a_cols() + p.a_cols() == m * k) by (nonlinear_arith)
        requires
            (p.a_rows() == m && p.a_cols() == k) || (p.a_rows() == k && p.a_cols() == m),
    ;
    assert((p.b_rows() - 1) * p.b_cols() + p.b_cols() == k * n) by (nonlinear_arith)
        requires
            (p.b_rows() == k && p.b_cols() == n) || (p.b_rows() == n && p.b_cols() == k),
    ;
}

/// A grid of one product with every z word zero is the single product, also where
/// the output is an operand's buffer: it is refused on the same arguments with the
/// same code, and accepted it launches the same kernel on the same buffers over
/// the same grid, with for its pitches the widths that zeros stand for.
pub proof fn law_single_product_is_a_grid_of_one(c: ProductCall)
    requires
        c.product.is_single(),
    ensures
        c.product.refusal() == c.product.empty(),
        match (c.grid_refusal(), c.single_refusal()) {
            (None, None) => true,
            (Some(grid), Some(single)) => grid.code == single.code,
            _ => false,
        },
        c.product.edge() == c.product.off_tile(),
        ({
            let grid = c.launch(c.product.edge(), c.product.pitch_a(), c.product.pitch_b());
            let single = c.launch(c.product.off_tile(), 0, 0);
            &&& grid.slot == single.slot
            &&& grid.buffers == single.buffers
            &&& grid.groups == single.groups
            &&& grid.access == single.access
        }),
{
    let p = c.product;
    if !p.off_tile() {
        assert(p.m % 8 == 0 && p.n % 8 == 0 && p.k % 8 == 0);
    }
}

/// The products or partial products of an accepted grid lie apart in the
/// output, and inside it.
pub proof fn law_grid_outputs_are_disjoint(c: ProductCall, s: int, t: int)
    requires
        c.product.refusal() is None,
        c.grid_refusal() is None,
        0 <= s < t < c.product.z,
    ensures
        s * c.product.zc + c.product.block() <= t * c.product.zc,
        (t * c.product.zc + c.product.block()) * 4 <= c.device.buffer(c.c).bytes,
{
    let p = c.product;
    assert(s * p.zc + p.zc <= t * p.zc) by (nonlinear_arith)
        requires
            s + 1 <= t,
            p.zc >= 0,
    ;
    assert(t * p.zc <= (p.z - 1) * p.zc) by (nonlinear_arith)
        requires
            t <= p.z - 1,
            p.zc >= 0,
    ;
    assert(p.block() >= 0) by (nonlinear_arith)
        requires
            p.m >= 0,
            p.n >= 0,
            p.block() == p.m * p.n,
    ;
}

/// Every k of an accepted split product belongs to one of its splits.
pub proof fn law_splits_cover_k(p: Product, k: int)
    requires
        p.refusal() is None,
        p.zmode == 1,
        0 <= k < p.k,
    ensures
        0 <= k / (p.kz as int) < p.z,
        (k / (p.kz as int)) * p.kz <= k < (k / (p.kz as int) + 1) * p.kz,
{
    let q = k / (p.kz as int);
    vstd::arithmetic::div_mod::lemma_fundamental_div_mod(k, p.kz as int);
    assert(q * p.kz <= k < (q + 1) * p.kz) by (nonlinear_arith)
        requires
            k == p.kz * q + k % (p.kz as int),
            0 <= k % (p.kz as int) < p.kz,
    ;
    assert(0 <= q < p.z) by (nonlinear_arith)
        requires
            q * p.kz <= k < (q + 1) * p.kz,
            0 <= k < p.k,
            p.k <= p.kz * p.z,
            p.kz > 0,
    ;
}

/// The push block of a product's launch is ten words: the extents, the z words,
/// and the two pitches, each in its place.
pub proof fn law_product_push_block_holds_the_product(
    c: ProductCall,
    edge: bool,
    lda: u32,
    ldb: u32,
)
    ensures
        ({
            let push = c.launch(edge, lda, ldb).push;
            &&& push.len() == 40
            &&& word_at(push, 0) == c.product.m
            &&& word_at(push, 1) == c.product.n
            &&& word_at(push, 2) == c.product.k
            &&& word_at(push, 3) == c.product.zmode
            &&& word_at(push, 4) == c.product.za
            &&& word_at(push, 5) == c.product.zb
            &&& word_at(push, 6) == c.product.zc
            &&& word_at(push, 7) == c.product.kz
            &&& word_at(push, 8) == lda
            &&& word_at(push, 9) == ldb
        }),
{
    law_words_read_back(c.product.push_words(lda, ldb));
}

/// The buffers, the accesses and the grid of a product's launch.
proof fn lemma_product_launch(c: ProductCall, edge: bool, lda: u32, ldb: u32)
    ensures
        ({
            let l = c.launch(edge, lda, ldb);
            &&& l.buffers == seq![
                (c.a % 0x1_0000_0000) as u32,
                (c.b % 0x1_0000_0000) as u32,
                (c.c % 0x1_0000_0000) as u32,
            ]
            &&& l.access[0].kind == AccessKind::Read
            &&& l.access[1].kind == AccessKind::Read
            &&& l.access[2].kind == AccessKind::Write
            &&& (l.groups[0] - 1) * 128 < c.product.n <= l.groups[0] * 128 || c.product.n == 0
            &&& (l.groups[1] - 1) * 128 < c.product.m <= l.groups[1] * 128 || c.product.m == 0
            &&& l.groups[2] == c.product.z
        }),
{
    lemma_ceil_div_covers(c.product.n as int, TILE as int);
    lemma_ceil_div_covers(c.product.m as int, TILE as int);
    assert(c.launch(edge, lda, ldb).buffers =~= seq![
        (c.a % 0x1_0000_0000) as u32,
        (c.b % 0x1_0000_0000) as u32,
        (c.c % 0x1_0000_0000) as u32,
    ]);
}

/// An accepted single product is one launch and no write: A and B are read and C
/// is written, the block holds the extents with every other word as the product
/// has it and no pitch, and the grid has a column of tiles for every 128 columns,
/// a row for every 128 rows, and one layer per product.
pub proof fn law_accepted_single_product_is_one_launch(c: ProductCall)
    requires
        c.single_refusal() is None,
    ensures
        c.single_answer() matches Ok(StepModel::Run(images, l)) && images.len() == 0 && l.len() == 1
            && {
            &&& l[0].buffers == seq![
                (c.a % 0x1_0000_0000) as u32,
                (c.b % 0x1_0000_0000) as u32,
                (c.c % 0x1_0000_0000) as u32,
            ]
            &&& l[0].access[0].kind == AccessKind::Read
            &&& l[0].access[1].kind == AccessKind::Read
            &&& l[0].access[2].kind == AccessKind::Write
            &&& word_at(l[0].push, 0) == c.product.m
            &&& word_at(l[0].push, 1) == c.product.n
            &&& word_at(l[0].push, 2) == c.product.k
            &&& word_at(l[0].push, 3) == c.product.zmode
            &&& word_at(l[0].push, 4) == c.product.za
            &&& word_at(l[0].push, 5) == c.product.zb
            &&& word_at(l[0].push, 6) == c.product.zc
            &&& word_at(l[0].push, 7) == c.product.kz
            &&& word_at(l[0].push, 8) == 0
            &&& word_at(l[0].push, 9) == 0
            &&& (l[0].groups[0] - 1) * 128 < c.product.n <= l[0].groups[0] * 128 || c.product.n == 0
            &&& (l[0].groups[1] - 1) * 128 < c.product.m <= l[0].groups[1] * 128 || c.product.m == 0
            &&& l[0].groups[2] == c.product.z
        },
{
    law_product_push_block_holds_the_product(c, c.product.off_tile(), 0, 0);
    lemma_product_launch(c, c.product.off_tile(), 0, 0);
}

/// An accepted grid is one launch and no write: A and B are read and C is
/// written, the block holds the product with the pitches that its zeros stand
/// for, the stored widths, and the grid covers the output in tiles of 128 with
/// one layer per product or split.
pub proof fn law_accepted_grid_is_one_launch(c: ProductCall)
    requires
        c.grid_refusal() is None,
    ensures
        c.grid_answer() matches Ok(StepModel::Run(images, l)) && images.len() == 0 && l.len() == 1
            && {
            &&& l[0].buffers == seq![
                (c.a % 0x1_0000_0000) as u32,
                (c.b % 0x1_0000_0000) as u32,
                (c.c % 0x1_0000_0000) as u32,
            ]
            &&& l[0].access[0].kind == AccessKind::Read
            &&& l[0].access[1].kind == AccessKind::Read
            &&& l[0].access[2].kind == AccessKind::Write
            &&& word_at(l[0].push, 0) == c.product.m
            &&& word_at(l[0].push, 1) == c.product.n
            &&& word_at(l[0].push, 2) == c.product.k
            &&& word_at(l[0].push, 3) == c.product.zmode
            &&& word_at(l[0].push, 4) == c.product.za
            &&& word_at(l[0].push, 5) == c.product.zb
            &&& word_at(l[0].push, 6) == c.product.zc
            &&& word_at(l[0].push, 7) == c.product.kz
            &&& c.product.lda != 0 ==> word_at(l[0].push, 8) == c.product.lda
            &&& c.product.lda == 0 && c.product.a_t ==> word_at(l[0].push, 8) == c.product.m
            &&& c.product.lda == 0 && !c.product.a_t ==> word_at(l[0].push, 8) == c.product.k
            &&& c.product.ldb != 0 ==> word_at(l[0].push, 9) == c.product.ldb
            &&& c.product.ldb == 0 && c.product.b_t ==> word_at(l[0].push, 9) == c.product.k
            &&& c.product.ldb == 0 && !c.product.b_t ==> word_at(l[0].push, 9) == c.product.n
            &&& (l[0].groups[0] - 1) * 128 < c.product.n <= l[0].groups[0] * 128 || c.product.n == 0
            &&& (l[0].groups[1] - 1) * 128 < c.product.m <= l[0].groups[1] * 128 || c.product.m == 0
            &&& l[0].groups[2] == c.product.z
        },
{
    let p = c.product;
    law_product_push_block_holds_the_product(c, p.edge(), p.pitch_a(), p.pitch_b());
    lemma_product_launch(c, p.edge(), p.pitch_a(), p.pitch_b());
    let l = c.launch(p.edge(), p.pitch_a(), p.pitch_b());
    assert(c.grid_answer() == Ok::<StepModel, Refusal>(
        StepModel::Run(Seq::empty(), seq![l]),
    ));
    assert(seq![l][0] == l);
}

/// The eight kernels are told apart by three bits: bounds-checked or aligned, A
/// transposed or not, B transposed or not. The aligned ones run only extents
/// that their tiles divide and, in a grid, pitches, strides and splits that they
/// can read whole.
pub proof fn law_kernel_fits_the_layout(p: Product, edge: bool)
    ensures
        p.slot(edge) matches Slot::Coopmat(i) && {
            &&& i < 8
            &&& i >= 4 <==> edge
            &&& (i / 2) % 2 == 1 <==> p.a_t
            &&& i % 2 == 1 <==> p.b_t
        },
        !p.off_tile() <==> p.m % 128 == 0 && p.n % 128 == 0 && p.k % 32 == 0,
        !p.edge() <==> p.m % 128 == 0 && p.n % 128 == 0 && p.k % 32 == 0 && p.pitch_a() % 8 == 0
            && p.pitch_b() % 8 == 0 && (p.zmode == 0 ==> p.za % 8 == 0 && p.zb % 8 == 0) && (
        p.zmode == 1 ==> p.kz % 32 == 0),
{
}

/// The accepted products: no extent is zero, the grid has between 1 and 65535
/// layers of a known mode, no row overlaps the next, the splits of mode 1 share
/// both operands and reach all of K, and products or partial products lie apart.
pub proof fn law_products_are_accepted_exactly_when_consistent(p: Product)
    ensures
        p.empty() is None <==> p.m > 0 && p.n > 0 && p.k > 0,
        p.empty() is Some ==> p.empty()->0.code == -3,
        p.refusal() is None <==> {
            &&& p.m > 0 && p.n > 0 && p.k > 0
            &&& 1 <= p.z <= 65535
            &&& p.zmode == 0 || p.zmode == 1
            &&& p.lda == 0 || p.lda >= (if p.a_t {
                p.m
            } else {
                p.k
            })
            &&& p.ldb == 0 || p.ldb >= (if p.b_t {
                p.k
            } else {
                p.n
            })
            &&& p.zmode == 1 ==> p.za == 0 && p.zb == 0 && p.kz > 0 && p.kz * p.z >= p.k && p.zc
                >= p.m * p.n
            &&& p.zmode == 0 && p.z > 1 ==> p.za >= (if p.a_t {
                p.m
            } else {
                p.k
            }) && p.zb >= (if p.b_t {
                p.k
            } else {
                p.n
            }) && p.zc >= p.m * p.n
        },
        p.refusal() is Some ==> p.refusal()->0.code == -3,
{
}

/// Every element that a product reads lies inside its operand, at the address
/// that the stride and pitch of its block give: A at `(i, l)` of layer `t`, or at
/// `(l, i)` where it is stored transposed, in two bytes.
pub proof fn law_product_reads_inside_a(p: Product, a: u64, b: u64, c: u64, t: int, i: int, l: int)
    requires
        p.fits(a, b, c),
        0 <= t < p.z,
        0 <= i < p.m,
        0 <= l < p.k,
    ensures
        p.zmode == 0 && !p.a_t ==> 2 * (t * p.za + i * p.pitch_a() + l) + 2 <= a,
        p.zmode == 0 && p.a_t ==> 2 * (t * p.za + l * p.pitch_a() + i) + 2 <= a,
        p.zmode == 1 && !p.a_t ==> 2 * (i * p.pitch_a() + l) + 2 <= a,
        p.zmode == 1 && p.a_t ==> 2 * (l * p.pitch_a() + i) + 2 <= a,
{
    let row = if p.a_t {
        l
    } else {
        i
    };
    assert(t * p.za <= (p.z - 1) * p.za) by (nonlinear_arith)
        requires
            t <= p.z - 1,
            p.za >= 0,
    ;
    assert(row * p.pitch_a() <= (p.a_rows() - 1) * p.pitch_a()) by (nonlinear_arith)
        requires
            row <= p.a_rows() - 1,
            p.pitch_a() >= 0,
    ;
}

/// As `law_product_reads_inside_a`, for B at `(l, j)`, or at `(j, l)` where it is
/// stored transposed.
pub proof fn law_product_reads_inside_b(p: Product, a: u64, b: u64, c: u64, t: int, l: int, j: int)
    requires
        p.fits(a, b, c),
        0 <= t < p.z,
        0 <= l < p.k,
        0 <= j < p.n,
    ensures
        p.zmode == 0 && !p.b_t ==> 2 * (t * p.zb + l * p.pitch_b() + j) + 2 <= b,
        p.zmode == 0 && p.b_t ==> 2 * (t * p.zb + j * p.pitch_b() + l) + 2 <= b,
        p.zmode == 1 && !p.b_t ==> 2 * (l * p.pitch_b() + j) + 2 <= b,
        p.zmode == 1 && p.b_t ==> 2 * (j * p.pitch_b() + l) + 2 <= b,
{
    let row = if p.b_t {
        j
    } else {
        l
    };
    assert(t * p.zb <= (p.z - 1) * p.zb) by (nonlinear_arith)
        requires
            t <= p.z - 1,
            p.zb >= 0,
    ;
    assert(row * p.pitch_b() <= (p.b_rows() - 1) * p.pitch_b()) by (nonlinear_arith)
        requires
            row <= p.b_rows() - 1,
            p.pitch_b() >= 0,
    ;
}

/// Every element that a product writes lies inside its result: `(i, j)` of layer
/// `t`, in four bytes, a dense row of N after another.
pub proof fn law_product_writes_inside_c(p: Product, a: u64, b: u64, c: u64, t: int, i: int, j: int)
    requires
        p.fits(a, b, c),
        0 <= t < p.z,
        0 <= i < p.m,
        0 <= j < p.n,
    ensures
        4 * (t * p.zc + i * p.n + j) + 4 <= c,
{
    assert(t * p.zc <= (p.z - 1) * p.zc) by (nonlinear_arith)
        requires
            t <= p.z - 1,
            p.zc >= 0,
    ;
    assert(i * p.n + j + 1 <= p.m * p.n) by (nonlinear_arith)
        requires
            0 <= i <= p.m - 1,
            0 <= j <= p.n - 1,
    ;
}

/// Buffers are asked for no more than the last element of each operand reaches:
/// those that hold it are never too small.
pub proof fn law_product_asks_for_no_more_than_it_reaches(p: Product, a: u64, b: u64, c: u64)
    requires
        p.refusal() is None,
        2 * ((if p.zmode == 1 {
            0
        } else {
            (p.z - 1) * p.za
        }) + (if p.a_t {
            (p.k - 1) * p.pitch_a() + p.m
        } else {
            (p.m - 1) * p.pitch_a() + p.k
        })) <= a,
        2 * ((if p.zmode == 1 {
            0
        } else {
            (p.z - 1) * p.zb
        }) + (if p.b_t {
            (p.n - 1) * p.pitch_b() + p.k
        } else {
            (p.k - 1) * p.pitch_b() + p.n
        })) <= b,
        4 * ((p.z - 1) * p.zc + p.m * p.n) <= c,
    ensures
        p.fits(a, b, c),
{
}

/// What a refusal reports of the buffers is what they hold and what the product
/// needs, and one of them holds less than its need.
pub proof fn law_room_reports_what_is_missing(p: Product, a: u64, b: u64, c: u64)
    requires
        p.refusal() is None,
    ensures
        p.room(a, b, c).a == a && p.room(a, b, c).b == b && p.room(a, b, c).c == c,
        p.fits(a, b, c) <==> a >= p.room(a, b, c).need_a && b >= p.room(a, b, c).need_b && c
            >= p.room(a, b, c).need_c,
{
    let most = 0xffff_ffff * 0xffff_ffff;
    assert(0 <= (p.z - 1) * p.za <= most && 0 <= (p.z - 1) * p.zb <= most && 0 <= (p.z - 1) * p.zc
        <= most) by (nonlinear_arith)
        requires
            1 <= p.z <= 0xffff_ffff,
            0 <= p.za <= 0xffff_ffff,
            0 <= p.zb <= 0xffff_ffff,
            0 <= p.zc <= 0xffff_ffff,
            most == 0xffff_ffff * 0xffff_ffff,
    ;
    assert(0 <= (p.a_rows() - 1) * p.pitch_a() <= most) by (nonlinear_arith)
        requires
            1 <= p.a_rows() <= 0xffff_ffff,
            0 <= p.pitch_a() <= 0xffff_ffff,
            most == 0xffff_ffff * 0xffff_ffff,
    ;
    assert(0 <= (p.b_rows() - 1) * p.pitch_b() <= most) by (nonlinear_arith)
        requires
            1 <= p.b_rows() <= 0xffff_ffff,
            0 <= p.pitch_b() <= 0xffff_ffff,
            most == 0xffff_ffff * 0xffff_ffff,
    ;
    assert(0 <= p.m * p.n <= most) by (nonlinear_arith)
        requires
            0 <= p.m <= 0xffff_ffff,
            0 <= p.n <= 0xffff_ffff,
            most == 0xffff_ffff * 0xffff_ffff,
    ;
}

/// A grid is accepted exactly when its handles resolve, its buffers hold it, its
/// output is neither operand's buffer unless it is a single product, and the
/// kernel it needs is there; the code says which of these fails first.
pub proof fn law_grid_is_accepted_exactly_when_it_can_run(c: ProductCall)
    ensures
        ({
            let d = c.device;
            let resolved = d.handle_refusal(c.a) is None && d.handle_refusal(c.b) is None
                && d.handle_refusal(c.c) is None;
            let apart = d.buffer(c.c).id != d.buffer(c.a).id && d.buffer(c.c).id != d.buffer(c.b).id;
            let held = c.product.fits(
                d.buffer(c.a).bytes,
                d.buffer(c.b).bytes,
                d.buffer(c.c).bytes,
            );
            let alone = c.product.z == 1 && c.product.zmode == 0 && c.product.za == 0
                && c.product.zb == 0 && c.product.zc == 0 && c.product.kz == 0 && c.product.lda == 0
                && c.product.ldb == 0;
            &&& c.grid_refusal() is None <==> resolved && (apart || alone) && held && d.has(
                c.product.slot(c.product.edge()),
            )
            &&& c.single_refusal() is None <==> resolved && held && d.has(
                c.product.slot(c.product.off_tile()),
            )
            &&& resolved && !apart && !alone ==> c.grid_refusal()->0.code == -3
            &&& resolved && (apart || alone) && !held ==> c.grid_refusal()->0.code == -4
            &&& resolved && !held ==> c.single_refusal()->0.code == -4
            &&& resolved && held && c.single_refusal() is Some ==> c.single_refusal()->0.code == -11
            &&& resolved && (apart || alone) && held && c.grid_refusal() is Some
                ==> c.grid_refusal()->0.code == -11
        }),
{
}

/// An accepted cast is one launch over exactly its elements: the block is the
/// count, the grid covers it in groups of 1024, the source is read and the
/// destination written, and both hold the elements at their widths, four bytes
/// for f32 and two for bf16.
pub proof fn law_accepted_cast_covers_its_elements(c: CastCall)
    requires
        cast_refusal(c.n, c.mode) is None,
        c.refusal() is None,
    ensures
        c.answer() matches Ok(StepModel::Run(images, l)) && images.len() == 0 && l.len() == 1 && {
            &&& l[0].slot == Slot::Cast(c.mode as u32)
            &&& l[0].buffers == seq![
                (c.src % 0x1_0000_0000) as u32,
                (c.dst % 0x1_0000_0000) as u32,
            ]
            &&& l[0].access[0].kind == AccessKind::Read
            &&& l[0].access[1].kind == AccessKind::Write
            &&& l[0].push.len() == 4
            &&& word_at(l[0].push, 0) == c.n
            &&& (l[0].groups[0] - 1) * 1024 < c.n <= l[0].groups[0] * 1024
            &&& l[0].groups[1] == 1 && l[0].groups[2] == 1
        },
        c.mode == 0 ==> 4 * c.n <= c.device.buffer(c.src).bytes && 2 * c.n <= c.device.buffer(
            c.dst,
        ).bytes,
        c.mode == 1 ==> 2 * c.n <= c.device.buffer(c.src).bytes && 4 * c.n <= c.device.buffer(
            c.dst,
        ).bytes,
{
    law_words_read_back(seq![c.n as u32]);
    lemma_ceil_div_covers(c.n as int, CAST_ELEMENTS_PER_GROUP as int);
    assert(c.launch().buffers =~= seq![
        (c.src % 0x1_0000_0000) as u32,
        (c.dst % 0x1_0000_0000) as u32,
    ]);
}

/// A cast is taken up exactly with a count from 1 to 2^32 - 1 and mode 0 or 1,
/// and then refused only for a handle, a buffer that is too small, or a kernel
/// that is not there.
pub proof fn law_casts_are_accepted_exactly_when_they_fit(c: CastCall)
    ensures
        cast_refusal(c.n, c.mode) is None <==> 1 <= c.n <= 0xffff_ffff && (c.mode == 0 || c.mode
            == 1),
        cast_refusal(c.n, c.mode) is Some ==> cast_refusal(c.n, c.mode)->0.code == -3,
        c.refusal() is None <==> {
            let (wide, narrow) = if c.mode == 0 {
                (c.src, c.dst)
            } else {
                (c.dst, c.src)
            };
            &&& c.device.handle_refusal(c.src) is None
            &&& c.device.handle_refusal(c.dst) is None
            &&& c.device.buffer(wide).bytes >= 4 * c.n
            &&& c.device.buffer(narrow).bytes >= 2 * c.n
            &&& c.device.has(Slot::Cast(c.mode as u32))
        },
{
}

/// A product is refused for the first thing that is wrong with it, and told what
/// that was: an empty dimension, the grid, the mode, a pitch, or its strides.
pub proof fn law_refused_product_says_what_is_wrong(p: Product)
    ensures
        p.m == 0 || p.n == 0 || p.k == 0 ==> p.refusal()->0.reason == (Reason::ZeroDimension {
            m: p.m,
            n: p.n,
            k: p.k,
        }),
        p.m > 0 && p.n > 0 && p.k > 0 ==> {
            let pitched = p.pitch_a() >= p.a_cols() && p.pitch_b() >= p.b_cols();
            let gridded = 1 <= p.z <= 65535;
            &&& !gridded ==> p.refusal()->0.reason == (Reason::GridZ { z: p.z })
            &&& gridded && p.zmode > 1 ==> p.refusal()->0.reason == (Reason::ZMode {
                zmode: p.zmode,
            })
            &&& gridded && p.zmode <= 1 && !pitched ==> p.refusal()->0.reason == (Reason::Pitch {
                lda: p.pitch_a(),
                ldb: p.pitch_b(),
                a_cols: p.a_cols(),
                b_cols: p.b_cols(),
            })
            &&& gridded && pitched && p.zmode == 1 && (p.za != 0 || p.zb != 0)
                ==> p.refusal()->0.reason is SplitStrides
            &&& gridded && pitched && p.zmode == 1 && p.za == 0 && p.zb == 0 && (p.kz == 0 || p.kz
                * p.z < p.k) ==> p.refusal()->0.reason == (Reason::SplitCover {
                z: p.z,
                kz: p.kz,
                k: p.k,
            })
            &&& gridded && pitched && p.zmode == 1 && p.za == 0 && p.zb == 0 && p.kz != 0 && p.kz
                * p.z >= p.k && p.zc < p.m * p.n ==> p.refusal()->0.reason
                == (Reason::PartialsOverlap { zc: p.zc, m: p.m, n: p.n })
            &&& gridded && pitched && p.zmode == 0 && p.refusal() is Some ==> p.refusal()->0.reason
                == (Reason::ZStrides {
                za: p.za,
                zb: p.zb,
                zc: p.zc,
                a_cols: p.a_cols(),
                b_cols: p.b_cols(),
                m: p.m,
                n: p.n,
            })
        },
{
}

/// A product that its device cannot run says why: buffers that do not hold it,
/// with what each holds and would have to, an output that is an input, or no
/// BF16 product on the device.
pub proof fn law_refused_product_call_says_why(c: ProductCall)
    requires
        c.handles() is None,
    ensures
        ({
            let d = c.device;
            let p = c.product;
            let room = p.room(d.buffer(c.a).bytes, d.buffer(c.b).bytes, d.buffer(c.c).bytes);
            let fits = p.fits(d.buffer(c.a).bytes, d.buffer(c.b).bytes, d.buffer(c.c).bytes);
            &&& !fits ==> c.single_refusal()->0.reason == (Reason::SmallOperands {
                m: p.m,
                n: p.n,
                k: p.k,
                room,
            })
            &&& fits && c.single_refusal() is Some ==> c.single_refusal()->0.reason is NoBf16
            &&& !c.apart() && !p.is_single() ==> c.grid_refusal()->0.reason is SharedOutput
            &&& (c.apart() || p.is_single()) && !fits ==> c.grid_refusal()->0.reason
                == (Reason::SmallBatch {
                z: p.z,
                m: p.m,
                n: p.n,
                k: p.k,
                zmode: p.zmode,
                room,
            })
            &&& (c.apart() || p.is_single()) && fits && c.grid_refusal() is Some
                ==> c.grid_refusal()->0.reason is NoBf16
        }),
{
}

/// A refused cast tells its count and its mode.
pub proof fn law_refused_cast_says_why(n: u64, mode: i32, c: CastCall)
    ensures
        cast_refusal(n, mode) is Some ==> cast_refusal(n, mode)->0.reason == (Reason::Cast {
            n,
            mode,
        }),
        c.device.handle_refusal(c.src) is None && c.device.handle_refusal(c.dst) is None
            && c.refusal() is Some ==> c.refusal()->0.reason == (Reason::CastSmall {
            n: c.n,
            mode: c.mode,
        }) || c.refusal()->0.reason is NoCast,
        c.device.handle_refusal(c.src) is None && c.device.handle_refusal(c.dst) is None
            && c.refusal() is Some ==> (c.refusal()->0.reason is CastSmall <==> c.refusal()->0.code
            == -4),
{
}

} // verus!
