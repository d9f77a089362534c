//! What a context owes the driver: the commands it has queued for it, the
//! objects it has created and not destroyed, and whether the device may still
//! be used.

use crate::error::{AckError, Failure};
use vstd::prelude::*;
use vstd::string::*;

verus! {

/// A driver command that cannot fail, named by the handles it is about.
#[derive(Clone, Copy, Debug, PartialEq, Eq, Structural)]
pub enum Order {
    DestroyBuffer(u64),
    FreeMemory(u64),
    DestroyShaderModule(u64),
    DestroySetLayout(u64),
    DestroyPipelineLayout(u64),
    DestroyPipeline(u64),
    DestroyDescriptorPool(u64),
    DestroyFence(u64),
    FreeCommandBuffer(u64),
    DestroyQueryPool(u64),
    /// A full memory barrier over compute and transfer.
    Barrier { commands: u64 },
    /// A barrier that holds compute until the origin stamp is written.
    OriginBarrier { commands: u64 },
    /// A compute-to-compute barrier between two launches of one item.
    RepeatBarrier { commands: u64 },
    ResetQueries { commands: u64, pool: u64, count: u32 },
    /// A timestamp at the bottom of the pipe, or at its top.
    Stamp { commands: u64, pool: u64, query: u32, top: bool },
    /// Write a buffer of so many bytes into a binding of a descriptor set: the
    /// set at a place in its pool.
    WriteBinding { pool: u64, set: u32, binding: u32, buffer: u64, bytes: u64 },
    /// Bind a kernel's pipeline and one descriptor set of its pool.
    BindKernel { commands: u64, pipeline: u64, layout: u64, pool: u64, set: u32 },
    /// Push the word at a place of a kernel's push block.
    PushConstants { commands: u64, layout: u64, at: u32, word: u32 },
    Launch { commands: u64, x: u32, y: u32, z: u32 },
    Copy { commands: u64, source: u64, target: u64, bytes: u64 },
}

/// What a `Ledger` holds.
#[verifier::ext_equal]
pub ghost struct LedgerModel {
    pub live_objects: i64,
    pub leaked: u64,
    pub torn_down: u64,
    pub poisoned: Option<Seq<char>>,
    pub lost: bool,
    pub orders: Seq<Order>,
}

impl LedgerModel {
    /// No failed wait has left the context unusable.
    pub open spec fn usable(self) -> bool {
        self.poisoned is None
    }

    /// The context is poisoned and its device is not known to be lost: work may
    /// still be running.
    pub open spec fn unknown(self) -> bool {
        self.poisoned is Some && !self.lost
    }

    /// Only a poisoned context has lost its device, and only one whose device
    /// state is unknown leaks.
    pub open spec fn wf(self) -> bool {
        &&& self.lost ==> self.poisoned is Some
        &&& self.leaked > 0 ==> self.unknown()
    }

    /// One more object exists.
    pub open spec fn created(self) -> LedgerModel {
        LedgerModel { live_objects: self.live_objects.wrapping_add(1), ..self }
    }

    /// A command is queued.
    pub open spec fn ordered(self, order: Order) -> LedgerModel {
        LedgerModel { orders: self.orders.push(order), ..self }
    }

    /// A row of commands is queued.
    pub open spec fn ordered_all(self, row: Seq<Order>) -> LedgerModel {
        LedgerModel { orders: self.orders + row, ..self }
    }

    /// An object's destruction is queued.
    pub open spec fn destroyed(self, order: Order) -> LedgerModel {
        LedgerModel {
            live_objects: self.live_objects.wrapping_sub(1),
            orders: self.orders.push(order),
            ..self
        }
    }

    /// A row of objects' destructions is queued.
    pub open spec fn destroyed_all(self, row: Seq<Order>) -> LedgerModel
        decreases row.len(),
    {
        if row.len() == 0 {
            self
        } else {
            self.destroyed_all(row.drop_last()).destroyed(row.last())
        }
    }

    /// Objects left allocated on purpose.
    pub open spec fn leaked(self, objects: nat) -> LedgerModel
        decreases objects,
    {
        if objects == 0 {
            self
        } else {
            let m = self.leaked((objects - 1) as nat);
            LedgerModel { leaked: m.leaked.wrapping_add(1), ..m }
        }
    }

    /// A row of objects is destroyed, or left allocated and counted where the
    /// device state is unknown.
    pub open spec fn released(self, row: Seq<Order>) -> LedgerModel {
        if self.unknown() {
            self.leaked(row.len())
        } else {
            self.destroyed_all(row)
        }
    }

    /// A submission's fence and command buffer are released, and the release
    /// is counted.
    pub open spec fn torn_down(self, fence: u64, commands: u64) -> LedgerModel {
        let m = self.destroyed(Order::DestroyFence(fence)).destroyed(
            Order::FreeCommandBuffer(commands),
        );
        LedgerModel { torn_down: m.torn_down.wrapping_add(1), ..m }
    }

    /// The context refuses from here on.
    pub open spec fn poisoned_by(self, why: Seq<char>, lost: bool) -> LedgerModel {
        LedgerModel { poisoned: Some(why), lost: self.lost || lost, ..self }
    }
}

/// The orders that destroy a buffer and its memory.
pub open spec fn pair_orders(buffer: u64, memory: u64) -> Seq<Order> {
    seq![Order::DestroyBuffer(buffer), Order::FreeMemory(memory)]
}

/// The orders that destroy a kernel's four objects.
pub open spec fn kernel_orders(pool: u64, pipeline: u64, layout: u64, dsl: u64) -> Seq<Order> {
    seq![
        Order::DestroyDescriptorPool(pool),
        Order::DestroyPipeline(pipeline),
        Order::DestroyPipelineLayout(layout),
        Order::DestroySetLayout(dsl),
    ]
}

/// The launches of one item, a barrier between any two that follow each other.
pub open spec fn launches(commands: u64, x: u32, y: u32, z: u32, repeats: nat) -> Seq<Order>
    decreases repeats,
{
    if repeats == 0 {
        Seq::empty()
    } else if repeats == 1 {
        seq![Order::Launch { commands, x, y, z }]
    } else {
        launches(commands, x, y, z, (repeats - 1) as nat).push(
            Order::RepeatBarrier { commands },
        ).push(Order::Launch { commands, x, y, z })
    }
}

/// An item of `repeats` launches has one command for each, and a barrier stands
/// between any two of them.
pub proof fn law_launches_are_separated(commands: u64, x: u32, y: u32, z: u32, repeats: nat)
    requires
        repeats > 0,
    ensures
        launches(commands, x, y, z, repeats).len() == 2 * repeats - 1,
        forall|i: int|
            0 <= i < 2 * repeats - 1 ==> #[trigger] launches(commands, x, y, z, repeats)[i] == (
            if i % 2 == 0 {
                Order::Launch { commands, x, y, z }
            } else {
                Order::RepeatBarrier { commands }
            }),
    decreases repeats,
{
    if repeats > 1 {
        law_launches_are_separated(commands, x, y, z, (repeats - 1) as nat);
    }
}

/// Destroying a row queues exactly that row, changes nothing else, and lowers
/// the count of live objects by one for each.
pub proof fn law_destroyed_objects_are_counted(m: LedgerModel, row: Seq<Order>)
    ensures
        m.destroyed_all(row).orders == m.orders + row,
        m.destroyed_all(row).leaked == m.leaked,
        m.destroyed_all(row).torn_down == m.torn_down,
        m.destroyed_all(row).poisoned == m.poisoned,
        m.destroyed_all(row).lost == m.lost,
        m.live_objects - row.len() >= i64::MIN ==> m.destroyed_all(row).live_objects
            == m.live_objects - row.len(),
    decreases row.len(),
{
    if row.len() > 0 {
        law_destroyed_objects_are_counted(m, row.drop_last());
        assert(m.orders + row =~= (m.orders + row.drop_last()).push(row.last()));
    } else {
        assert(m.orders + row =~= m.orders);
    }
}

/// Destroying two rows one after the other is destroying them as one.
pub proof fn lemma_destroyed_twice(m: LedgerModel, a: Seq<Order>, b: Seq<Order>)
    ensures
        m.destroyed_all(a).destroyed_all(b) == m.destroyed_all(a + b),
    decreases b.len(),
{
    if b.len() > 0 {
        lemma_destroyed_twice(m, a, b.drop_last());
        assert((a + b).drop_last() =~= a + b.drop_last());
        assert((a + b).last() == b.last());
    } else {
        assert(a + b =~= a);
    }
}

/// Leaking changes the count of leaked objects and nothing else, by one for
/// each.
pub proof fn law_leaked_objects_are_counted(m: LedgerModel, objects: nat)
    ensures
        m.leaked(objects) == (LedgerModel { leaked: m.leaked(objects).leaked, ..m }),
        objects <= u64::MAX ==> m.leaked(objects).leaked == m.leaked.wrapping_add(objects as u64),
    decreases objects,
{
    if objects > 0 {
        law_leaked_objects_are_counted(m, (objects - 1) as nat);
    }
}

pub proof fn lemma_leaked_twice(m: LedgerModel, a: nat, b: nat)
    ensures
        m.leaked(a).leaked(b) == m.leaked(a + b),
    decreases b,
{
    if b > 0 {
        lemma_leaked_twice(m, a, (b - 1) as nat);
    }
}

/// A context once poisoned stays so, whatever is created, destroyed, released
/// or leaked afterwards; and a lost device stays lost.
pub proof fn law_poison_is_sticky(m: LedgerModel, row: Seq<Order>, order: Order, why: Seq<char>)
    requires
        !m.usable(),
    ensures
        !m.created().usable(),
        !m.ordered(order).usable(),
        !m.released(row).usable(),
        !m.torn_down(0, 0).usable(),
        !m.poisoned_by(why, false).usable(),
        m.lost ==> m.poisoned_by(why, false).lost && m.released(row).lost,
{
    law_destroyed_objects_are_counted(m, row);
    law_leaked_objects_are_counted(m, row.len());
}

/// The ledger of one context.
#[derive(Debug)]
pub struct Ledger {
    live_objects: i64,
    leaked: u64,
    torn_down: u64,
    poisoned: Option<String>,
    lost: bool,
    orders: Vec<Order>,
}

impl View for Ledger {
    type V = LedgerModel;

    closed spec fn view(&self) -> LedgerModel {
        LedgerModel {
            live_objects: self.live_objects,
            leaked: self.leaked,
            torn_down: self.torn_down,
            poisoned: match self.poisoned {
                Some(s) => Some(s@),
                None => None,
            },
            lost: self.lost,
            orders: self.orders@,
        }
    }
}

/// The ledger of a fresh context.
pub open spec fn fresh_ledger() -> LedgerModel {
    LedgerModel {
        live_objects: 0,
        leaked: 0,
        torn_down: 0,
        poisoned: None,
        lost: false,
        orders: Seq::empty(),
    }
}

impl Ledger {
    pub fn new() -> (r: Self)
        ensures
            r@ == fresh_ledger(),
            r@.wf(),
    {
        Ledger {
            live_objects: 0,
            leaked: 0,
            torn_down: 0,
            poisoned: None,
            lost: false,
            orders: Vec::new(),
        }
    }

    /// Refuse once the device state is unknown or the device is lost.
    pub fn check_live(&self) -> (r: Result<(), AckError>)
        ensures
            match r {
                Ok(()) => self@.usable(),
                Err(e) => self@.poisoned is Some && e@ == Failure::Poisoned(self@.poisoned->0),
            },
    {
        match &self.poisoned {
            Some(why) => Err(AckError::Poisoned(why.clone())),
            None => Ok(()),
        }
    }

    pub fn is_poisoned(&self) -> (r: bool)
        ensures
            r == !self@.usable(),
    {
        self.poisoned.is_some()
    }

    /// Whether work may still be running on a device nothing is known of.
    pub fn is_unknown(&self) -> (r: bool)
        ensures
            r == self@.unknown(),
    {
        self.poisoned.is_some() && !self.lost
    }

    /// Why the context is poisoned; empty where it is not.
    pub fn poison_text(&self) -> (r: String)
        ensures
            r@ == (match self@.poisoned {
                Some(s) => s,
                None => ""@,
            }),
    {
        match &self.poisoned {
            Some(why) => why.clone(),
            None => String::from_str(""),
        }
    }

    /// Poison the context.
    pub fn poison(&mut self, why: String, lost: bool)
        requires
            old(self)@.wf(),
            old(self)@.usable(),
        ensures
            final(self)@ == old(self)@.poisoned_by(why@, lost),
            final(self)@.wf(),
    {
        self.poisoned = Some(why);
        if lost {
            self.lost = true;
        }
    }

    /// Count an object the driver created.
    pub fn create(&mut self)
        ensures
            final(self)@ == old(self)@.created(),
    {
        self.live_objects = self.live_objects.wrapping_add(1);
    }

    /// Queue a command.
    pub fn order(&mut self, order: Order)
        ensures
            final(self)@ == old(self)@.ordered(order),
    {
        self.orders.push(order);
        proof {
            assert(self@ =~= old(self)@.ordered(order));
        }
    }

    /// Queue the launches of one item.
    pub fn launch(&mut self, commands: u64, x: u32, y: u32, z: u32, repeats: u32)
        ensures
            final(self)@ == old(self)@.ordered_all(launches(commands, x, y, z, repeats as nat)),
    {
        let mut i: u32 = 0;
        proof {
            assert(self.orders@ + Seq::<Order>::empty() =~= self.orders@);
        }
        while i < repeats
            invariant
                i <= repeats,
                self@ == old(self)@.ordered_all(launches(commands, x, y, z, i as nat)),
            decreases repeats - i,
        {
            let ghost before = self.orders@;
            if i > 0 {
                self.order(Order::RepeatBarrier { commands });
            }
            self.order(Order::Launch { commands, x, y, z });
            i += 1;
            proof {
                assert(self@ =~= old(self)@.ordered_all(launches(commands, x, y, z, i as nat)));
            }
        }
    }

    /// Queue an object's destruction and count it.
    pub fn destroy(&mut self, order: Order)
        ensures
            final(self)@ == old(self)@.destroyed(order),
    {
        self.live_objects = self.live_objects.wrapping_sub(1);
        self.orders.push(order);
        proof {
            assert(self@ =~= old(self)@.destroyed(order));
        }
    }

    /// Queue a buffer's and its memory's destruction.
    pub fn destroy_pair(&mut self, buffer: u64, memory: u64)
        ensures
            final(self)@ == old(self)@.destroyed_all(pair_orders(buffer, memory)),
    {
        proof {
            let row = pair_orders(buffer, memory);
            assert(row.drop_last() =~= seq![Order::DestroyBuffer(buffer)]);
            assert(row.drop_last().drop_last() =~= Seq::<Order>::empty());
            reveal_with_fuel(LedgerModel::destroyed_all, 4);
        }
        self.destroy(Order::DestroyBuffer(buffer));
        self.destroy(Order::FreeMemory(memory));
    }

    /// Queue the destruction of a kernel's four objects.
    pub fn destroy_kernel(&mut self, pool: u64, pipeline: u64, layout: u64, dsl: u64)
        ensures
            final(self)@ == old(self)@.destroyed_all(kernel_orders(pool, pipeline, layout, dsl)),
    {
        proof {
            let row = kernel_orders(pool, pipeline, layout, dsl);
            assert(row.drop_last() =~= seq![
                Order::DestroyDescriptorPool(pool),
                Order::DestroyPipeline(pipeline),
                Order::DestroyPipelineLayout(layout),
            ]);
            assert(row.drop_last().drop_last() =~= seq![
                Order::DestroyDescriptorPool(pool),
                Order::DestroyPipeline(pipeline),
            ]);
            assert(row.drop_last().drop_last().drop_last() =~= seq![
                Order::DestroyDescriptorPool(pool),
            ]);
            assert(row.drop_last().drop_last().drop_last().drop_last() =~= Seq::<Order>::empty());
            reveal_with_fuel(LedgerModel::destroyed_all, 6);
        }
        self.destroy(Order::DestroyDescriptorPool(pool));
        self.destroy(Order::DestroyPipeline(pipeline));
        self.destroy(Order::DestroyPipelineLayout(layout));
        self.destroy(Order::DestroySetLayout(dsl));
    }

    /// Count objects left allocated on purpose.
    pub fn leak(&mut self, objects: u64)
        requires
            old(self)@.wf(),
            old(self)@.unknown(),
        ensures
            final(self)@ == old(self)@.leaked(objects as nat),
            final(self)@.wf(),
    {
        proof {
            law_leaked_objects_are_counted(self@, objects as nat);
        }
        self.leaked = self.leaked.wrapping_add(objects);
    }

    /// Release a submission's fence and command buffer, and count the release
    /// in the same place.
    pub fn release_submission(&mut self, fence: u64, commands: u64)
        ensures
            final(self)@ == old(self)@.torn_down(fence, commands),
    {
        self.destroy(Order::DestroyFence(fence));
        self.destroy(Order::FreeCommandBuffer(commands));
        self.torn_down = self.torn_down.wrapping_add(1);
    }

    /// Destroy a buffer and its memory, or leave them allocated and count them
    /// where the device state is unknown.
    pub fn release_pair(&mut self, buffer: u64, memory: u64)
        requires
            old(self)@.wf(),
        ensures
            final(self)@ == old(self)@.released(pair_orders(buffer, memory)),
            final(self)@.wf(),
    {
        if self.is_unknown() {
            self.leak(2);
        } else {
            self.destroy_pair(buffer, memory);
            proof {
                law_destroyed_objects_are_counted(old(self)@, pair_orders(buffer, memory));
            }
        }
    }

    /// As `release_pair`, for a query pool.
    pub fn release_queries(&mut self, pool: u64)
        requires
            old(self)@.wf(),
        ensures
            final(self)@ == old(self)@.released(seq![Order::DestroyQueryPool(pool)]),
            final(self)@.wf(),
    {
        proof {
            let row = seq![Order::DestroyQueryPool(pool)];
            assert(row.drop_last() =~= Seq::<Order>::empty());
            reveal_with_fuel(LedgerModel::destroyed_all, 3);
        }
        if self.is_unknown() {
            self.leak(1);
        } else {
            self.destroy(Order::DestroyQueryPool(pool));
        }
    }

    /// As `release_pair`, for a kernel's four objects.
    pub fn release_kernel(&mut self, pool: u64, pipeline: u64, layout: u64, dsl: u64)
        requires
            old(self)@.wf(),
        ensures
            final(self)@ == old(self)@.released(kernel_orders(pool, pipeline, layout, dsl)),
            final(self)@.wf(),
    {
        if self.is_unknown() {
            self.leak(4);
        } else {
            self.destroy_kernel(pool, pipeline, layout, dsl);
            proof {
                law_destroyed_objects_are_counted(
                    old(self)@,
                    kernel_orders(pool, pipeline, layout, dsl),
                );
            }
        }
    }

    /// Hand out the queued commands, in order.
    pub fn take_orders(&mut self) -> (r: Vec<Order>)
        ensures
            r@ == old(self)@.orders,
            final(self)@ == (LedgerModel { orders: Seq::empty(), ..old(self)@ }),
    {
        let mut orders: Vec<Order> = Vec::new();
        std::mem::swap(&mut orders, &mut self.orders);
        orders
    }

    pub fn live_objects(&self) -> (r: i64)
        ensures
            r == self@.live_objects,
    {
        self.live_objects
    }

    pub fn leaked(&self) -> (r: u64)
        ensures
            r == self@.leaked,
    {
        self.leaked
    }

    pub fn torn_down(&self) -> (r: u64)
        ensures
            r == self@.torn_down,
    {
        self.torn_down
    }
}

/// One creation raises the count of live objects by one, and one destruction
/// lowers it by one and queues its command last; nothing else changes.
pub proof fn law_one_object_is_counted_once(m: LedgerModel, order: Order)
    ensures
        m.created() == (LedgerModel { live_objects: m.created().live_objects, ..m }),
        m.live_objects < i64::MAX ==> m.created().live_objects == m.live_objects + 1,
        m.destroyed(order).orders == m.orders + seq![order],
        m.live_objects > i64::MIN ==> m.destroyed(order).live_objects == m.live_objects - 1,
        m.ordered(order).orders == m.orders + seq![order],
        m.ordered(order).live_objects == m.live_objects,
{
}

/// A submission's end destroys its fence and then frees its command buffer, and
/// counts one.
pub proof fn law_torn_down_submission_is_counted(m: LedgerModel, fence: u64, commands: u64)
    requires
        m.live_objects >= i64::MIN + 2,
    ensures
        m.torn_down(fence, commands).orders == m.orders + seq![
            Order::DestroyFence(fence),
            Order::FreeCommandBuffer(commands),
        ],
        m.torn_down(fence, commands).live_objects == m.live_objects - 2,
        m.torn_down < u64::MAX ==> m.torn_down(fence, commands).torn_down == m.torn_down + 1,
        m.torn_down(fence, commands).poisoned == m.poisoned,
        m.torn_down(fence, commands).lost == m.lost,
        m.torn_down(fence, commands).leaked == m.leaked,
{
}

/// A context that is poisoned without its device being known as lost destroys
/// nothing: it counts what it leaves allocated. Any other destroys each object.
pub proof fn law_released_objects_are_destroyed_or_leaked(m: LedgerModel, row: Seq<Order>)
    requires
        m.live_objects - row.len() >= i64::MIN,
        m.leaked + row.len() <= u64::MAX,
    ensures
        m.poisoned is Some && !m.lost ==> m.released(row) == (LedgerModel {
            leaked: (m.leaked + row.len()) as u64,
            ..m
        }),
        m.poisoned is None || m.lost ==> m.released(row) == (LedgerModel {
            orders: m.orders + row,
            live_objects: (m.live_objects - row.len()) as i64,
            ..m
        }),
{
    law_destroyed_objects_are_counted(m, row);
    law_leaked_objects_are_counted(m, row.len());
}

/// A poisoned context says why, and a lost device stays lost whatever poisons
/// the context next.
pub proof fn law_poison_says_why(m: LedgerModel, why: Seq<char>, lost: bool)
    ensures
        m.poisoned_by(why, lost).poisoned == Some(why),
        m.poisoned_by(why, lost).lost <==> m.lost || lost,
        m.poisoned_by(why, lost).orders == m.orders,
        m.poisoned_by(why, lost).live_objects == m.live_objects,
        m.poisoned_by(why, lost).leaked == m.leaked,
        m.poisoned_by(why, lost).torn_down == m.torn_down,
{
}

/// A buffer is destroyed before its memory is freed; a kernel gives up its
/// descriptor pool, its pipeline, its pipeline layout and its set layout.
pub proof fn law_objects_are_destroyed_in_order(
    buffer: u64,
    memory: u64,
    pool: u64,
    pipeline: u64,
    layout: u64,
    dsl: u64,
)
    ensures
        pair_orders(buffer, memory).len() == 2,
        pair_orders(buffer, memory)[0] == Order::DestroyBuffer(buffer),
        pair_orders(buffer, memory)[1] == Order::FreeMemory(memory),
        kernel_orders(pool, pipeline, layout, dsl).len() == 4,
        kernel_orders(pool, pipeline, layout, dsl)[0] == Order::DestroyDescriptorPool(pool),
        kernel_orders(pool, pipeline, layout, dsl)[1] == Order::DestroyPipeline(pipeline),
        kernel_orders(pool, pipeline, layout, dsl)[2] == Order::DestroyPipelineLayout(layout),
        kernel_orders(pool, pipeline, layout, dsl)[3] == Order::DestroySetLayout(dsl),
{
}

} // verus!
