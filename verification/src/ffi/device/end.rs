//! The end of a device: the recorded batch is dropped, then every buffer and
//! every kernel is released.

use super::open::{every_slot, place_slot};
use super::{AckDevice, DeviceModel, Slot, SLOTS};
use crate::context::retire::{Abandon, AbandonNext, AbandonOutcome};
use crate::context::{BufferModel, ContextModel};
use crate::driver::Reply;
use crate::kernel::Kernel;
use crate::ledger::{law_leaked_objects_are_counted, LedgerModel, Order};
use vstd::prelude::*;

verus! {

/// Where the end of a device stands.
#[derive(Debug)]
pub enum EndNext {
    Pending(Abandon),
    Ended,
}

/// Every slot, by its place.
pub open spec fn all_slots() -> Seq<Slot> {
    Seq::new(SLOTS as nat, |i: int| place_slot(i))
}

impl DeviceModel {
    /// The device without the first `n` of a row of buffers, released in order.
    pub open spec fn emptied(self, order: Seq<u32>, n: nat) -> DeviceModel
        decreases n,
    {
        if n == 0 {
            self
        } else {
            self.emptied(order, (n - 1) as nat).freeing(order[n - 1]).0
        }
    }

    /// The device once every buffer is released in this order, and then every
    /// kernel.
    pub open spec fn ended_in(self, order: Seq<u32>, after: DeviceModel) -> bool {
        &&& order.no_duplicates()
        &&& forall|s: u32| self.buffers.contains_key(s) <==> order.contains(s)
        &&& after == self.emptied(order, order.len()).stripped(all_slots(), SLOTS as nat)
    }

    /// The device once all it held is released; the buffers go in some order.
    pub open spec fn ended(self, after: DeviceModel) -> bool {
        exists|order: Seq<u32>| self.ended_in(order, after)
    }

    /// The end of a device goes by what becomes of its batches.
    pub open spec fn ends(
        self,
        after: DeviceModel,
        next: EndNext,
        ctx: ContextModel,
        o: AbandonOutcome,
    ) -> bool {
        match o {
            AbandonOutcome::Pending(a) => next is Pending && next->Pending_0@ == a && after
                == self.with_context(ctx),
            AbandonOutcome::Finished => next is Ended && self.with_context(ctx).ended(after),
        }
    }
}

/// Releasing buffers takes them from the device and touches nothing else of it.
proof fn lemma_emptied(d: DeviceModel, order: Seq<u32>, n: nat)
    requires
        n <= order.len(),
        order.no_duplicates(),
        forall|s: u32| order.contains(s) ==> d.buffers.contains_key(s),
    ensures
        d.emptied(order, n).kernels == d.kernels,
        forall|s: u32|
            d.emptied(order, n).buffers.contains_key(s) <==> d.buffers.contains_key(s)
                && !order.take(n as int).contains(s),
    decreases n,
{
    let taken = order.take(n as int);
    if n > 0 {
        let before = order.take(n - 1);
        lemma_emptied(d, order, (n - 1) as nat);
        assert(taken =~= before.push(order[n - 1]));
        assert forall|s: u32| taken.contains(s) <==> before.contains(s) || s == order[n - 1] by {
            if before.contains(s) {
                let i = before.index_of(s);
                assert(taken[i] == s);
            }
            assert(taken[n - 1] == order[n - 1]);
        }
    } else {
        assert(taken =~= Seq::<u32>::empty());
    }
}

/// An ended device holds no buffer and no kernel.
pub proof fn law_an_ended_device_holds_nothing(d: DeviceModel, after: DeviceModel, slot: Slot)
    requires
        d.wf(),
        d.ended(after),
        d.ctx.quiet(),
        slot.valid(),
    ensures
        after.buffers == Map::<u32, BufferModel>::empty(),
        !after.has(slot),
{
    let order = choose|order: Seq<u32>| d.ended_in(order, after);
    let e = d.emptied(order, order.len());
    lemma_emptied(d, order, order.len());
    assert(order.take(order.len() as int) =~= order);
    assert forall|s: u32| !e.buffers.dom().contains(s) by {
        if e.buffers.contains_key(s) {
            assert(d.buffers.contains_key(s) && !order.contains(s));
        }
    }
    assert(e.buffers =~= Map::<u32, BufferModel>::empty());
    lemma_emptied_wf(d, order, order.len());
    super::law_slots_have_places_of_their_own(slot, slot);
    let slots = all_slots();
    assert forall|j: int| 0 <= j < slots.len() implies (#[trigger] slots[j]).valid() by {}
    super::open::law_stripped_kernels_are_gone(e, slots, SLOTS as nat, slot.place());
    assert(slots[slot.place()].place() == slot.place());
    lemma_stripped_keeps_buffers(e, slots, SLOTS as nat);
}

/// Nothing of a device whose state is unknown is destroyed by its end: what it
/// held stays allocated, and counted as live.
pub proof fn law_an_unknown_device_destroys_nothing(d: DeviceModel, after: DeviceModel)
    requires
        d.wf(),
        d.ctx.wf(),
        d.ctx.ledger.unknown(),
        d.with_context(d.ctx.abandoning().0).ended(after),
    ensures
        d.ctx.abandoning().1 is Finished,
        after.ctx.drained() == after.ctx,
        after.ctx.ledger.orders == d.ctx.ledger.orders,
        after.ctx.ledger.live_objects == d.ctx.ledger.live_objects,
        after.ctx.pool == d.ctx.pool,
{
    let e = d.with_context(d.ctx.abandoning().0);
    if let Some(s) = d.ctx.in_flight {
        let l = d.ctx.ledger;
        let n = 2 * s.retired.len() + 4 * s.kernels.len();
        law_leaked_objects_are_counted(l, n);
        law_leaked_objects_are_counted(l.leaked(n), 2 * s.staging.len());
        law_leaked_objects_are_counted(l.leaked(n).leaked(2 * s.staging.len()), 2);
    }
    assert(e.ctx.ledger.unknown() && e.ctx.quiet());
    let order = choose|order: Seq<u32>| e.ended_in(order, after);
    lemma_emptied_destroys_nothing(e, order, order.len());
    lemma_stripped_destroys_nothing(e.emptied(order, order.len()), all_slots(), SLOTS as nat);
}

proof fn lemma_emptied_destroys_nothing(d: DeviceModel, order: Seq<u32>, n: nat)
    requires
        d.ctx.quiet(),
        d.ctx.ledger.unknown(),
    ensures
        d.emptied(order, n).ctx.quiet(),
        d.emptied(order, n).ctx.pool == d.ctx.pool,
        d.emptied(order, n).ctx.ledger == (LedgerModel {
            leaked: d.emptied(order, n).ctx.ledger.leaked,
            ..d.ctx.ledger
        }),
    decreases n,
{
    if n > 0 {
        lemma_emptied_destroys_nothing(d, order, (n - 1) as nat);
        law_leaked_objects_are_counted(d.emptied(order, (n - 1) as nat).ctx.ledger, 2);
    }
}

proof fn lemma_stripped_destroys_nothing(d: DeviceModel, slots: Seq<Slot>, n: nat)
    requires
        d.ctx.quiet(),
        d.ctx.ledger.unknown(),
    ensures
        d.stripped(slots, n).ctx.quiet(),
        d.stripped(slots, n).ctx.pool == d.ctx.pool,
        d.stripped(slots, n).ctx.ledger == (LedgerModel {
            leaked: d.stripped(slots, n).ctx.ledger.leaked,
            ..d.ctx.ledger
        }),
    decreases n,
{
    if n > 0 {
        lemma_stripped_destroys_nothing(d, slots, (n - 1) as nat);
        law_leaked_objects_are_counted(d.stripped(slots, (n - 1) as nat).ctx.ledger, 4);
    }
}

/// A device stays consistent while its buffers are released.
proof fn lemma_emptied_wf(d: DeviceModel, order: Seq<u32>, n: nat)
    requires
        d.wf(),
        d.ctx.quiet(),
        n <= order.len(),
        order.no_duplicates(),
        forall|s: u32| order.contains(s) ==> d.buffers.contains_key(s),
    ensures
        d.emptied(order, n).wf(),
        d.emptied(order, n).ctx.quiet(),
    decreases n,
{
    if n > 0 {
        let e = d.emptied(order, (n - 1) as nat);
        lemma_emptied_wf(d, order, (n - 1) as nat);
        lemma_emptied(d, order, (n - 1) as nat);
        let s = order[n - 1];
        let before = order.take(n - 1);
        assert(order.contains(s));
        if before.contains(s) {
            let i = before.index_of(s);
            assert(order[i] == order[n - 1]);
        }
        super::run::lemma_buffer_gone(e, s, e.freeing(s).0.ctx);
    }
}

proof fn lemma_stripped_keeps_buffers(d: DeviceModel, slots: Seq<Slot>, n: nat)
    ensures
        d.stripped(slots, n).buffers == d.buffers,
    decreases n,
{
    if n > 0 {
        lemma_stripped_keeps_buffers(d, slots, (n - 1) as nat);
    }
}

impl AckDevice {
    /// The kernel in a slot.
    pub fn kernel(&self, slot: Slot) -> (r: Option<&Kernel>)
        requires
            self.wf(),
            slot.valid(),
        ensures
            match r {
                Some(k) => self@.kernels[slot.place()] == Some(k@),
                None => !self@.has(slot),
            },
    {
        let place: usize = slot.index();
        self.kernels[place].as_ref()
    }

    /// Take the driver commands queued so far, in order.
    pub fn take_orders(&mut self) -> (r: Vec<Order>)
        requires
            old(self).wf(),
        ensures
            r@ == old(self)@.ctx.ledger.orders,
            final(self).wf(),
            final(self)@ == old(self)@.with_context(
                (ContextModel {
                    ledger: LedgerModel { orders: Seq::empty(), ..old(self)@.ctx.ledger },
                    ..old(self)@.ctx
                }),
            ),
    {
        let ghost before = self@;
        let orders = self.ctx.take_orders();
        proof {
            assert(self@ =~= before.with_context(self.ctx@));
        }
        orders
    }

    /// Release every buffer, and then every kernel.
    fn release_all(&mut self)
        requires
            old(self).wf(),
            old(self)@.ctx.quiet(),
        ensures
            final(self).wf(),
            final(self)@.ctx.quiet(),
            old(self)@.ended(final(self)@),
    {
        let ghost before = self@;
        let ghost mut order: Seq<u32> = Seq::empty();
        proof {
            self.lemma_wf();
        }
        let mut left: usize = self.live_buffers();
        while left > 0
            invariant
                self.wf(),
                self@.ctx.quiet(),
                left == self@.buffers.dom().len(),
                self@.buffers.dom().finite(),
                order.no_duplicates(),
                self@ == before.emptied(order, order.len()),
                forall|s: u32|
                    before.buffers.contains_key(s) <==> order.contains(s)
                        || self@.buffers.contains_key(s),
                forall|s: u32| order.contains(s) ==> !self@.buffers.contains_key(s),
            decreases left,
        {
            let ghost at = self@;
            match self.any_buffer() {
                Some(s) => {
                    self.free(s);
                    proof {
                        let longer = order.push(s);
                        lemma_emptied_prefix(before, order, s, order.len());
                        assert(self@.buffers.dom() =~= at.buffers.dom().remove(s));
                        assert forall|t: u32| longer.contains(t) <==> order.contains(t) || t
                            == s by {
                            if order.contains(t) {
                                let i = order.index_of(t);
                                assert(longer[i] == t);
                            }
                            assert(longer[order.len() as int] == s);
                        }
                        assert(!order.contains(s));
                        assert forall|i: int, j: int|
                            0 <= i < longer.len() && 0 <= j < longer.len() && i
                                != j implies longer[i] != longer[j] by {
                            assert(i < order.len() ==> order.contains(longer[i]));
                            assert(j < order.len() ==> order.contains(longer[j]));
                        }
                        order = longer;
                    }
                    left -= 1;
                },
                None => {
                    proof {
                        assert(at.buffers.dom() =~= Set::<u32>::empty());
                    }
                },
            }
        }
        proof {
            assert forall|s: u32| !self@.buffers.contains_key(s) by {
                if self@.buffers.contains_key(s) {
                    assert(self@.buffers.dom().contains(s));
                    vstd::set_lib::lemma_set_empty_equivalency_len(self@.buffers.dom());
                }
            }
        }
        let ghost emptied = self@;
        let slots = every_slot();
        self.give_up(&slots);
        proof {
            assert(slots@ =~= all_slots());
            lemma_stripped_keeps_quiet(emptied, slots@, slots@.len());
            assert(before.ended_in(order, self@));
        }
    }

    /// Begin to end a device that goes away without being closed: what it has
    /// recorded is dropped, and all it holds is released.
    pub fn end(&mut self) -> (r: EndNext)
        requires
            old(self).wf(),
        ensures
            final(self).wf(),
            old(self)@.ends(
                final(self)@,
                r,
                old(self)@.ctx.abandoning().0,
                old(self)@.ctx.abandoning().1,
            ),
            r matches EndNext::Pending(a) ==> a@.held_by(final(self)@.ctx),
            r is Ended ==> final(self)@.ctx.quiet(),
    {
        let ghost before = self@;
        let next = self.ctx.discard_recorded_batch();
        proof {
            assert(self@ =~= before.with_context(self.ctx@));
        }
        match next {
            AbandonNext::Pending(a) => EndNext::Pending(a),
            AbandonNext::Finished => {
                self.release_all();
                EndNext::Ended
            },
        }
    }

    /// Take the reply to a call that the end of a device waits for.
    pub fn advance_end(&mut self, a: Abandon, reply: Reply) -> (r: EndNext)
        requires
            old(self).wf(),
            a@.held_by(old(self)@.ctx),
            a@.flush.next_call().admits(reply),
        ensures
            final(self).wf(),
            old(self)@.ends(
                final(self)@,
                r,
                old(self)@.ctx.abandon_after(a@, reply).0,
                old(self)@.ctx.abandon_after(a@, reply).1,
            ),
            r matches EndNext::Pending(b) ==> b@.held_by(final(self)@.ctx),
            r is Ended ==> final(self)@.ctx.quiet(),
    {
        let ghost before = self@;
        let next = self.ctx.advance_abandon(a, reply);
        proof {
            assert(self@ =~= before.with_context(self.ctx@));
        }
        match next {
            AbandonNext::Pending(b) => EndNext::Pending(b),
            AbandonNext::Finished => {
                self.release_all();
                EndNext::Ended
            },
        }
    }

    /// Give back what is pooled, before the driver's device goes.
    pub fn drain(&mut self)
        requires
            old(self).wf(),
            old(self)@.ctx.quiet(),
        ensures
            final(self).wf(),
            final(self)@ == old(self)@.with_context(old(self)@.ctx.drained()),
    {
        let ghost before = self@;
        self.ctx.drain();
        proof {
            assert(self@ =~= before.with_context(self.ctx@));
        }
    }
}

proof fn lemma_emptied_prefix(d: DeviceModel, order: Seq<u32>, s: u32, n: nat)
    requires
        n <= order.len(),
    ensures
        d.emptied(order.push(s), n) == d.emptied(order, n),
    decreases n,
{
    if n > 0 {
        lemma_emptied_prefix(d, order, s, (n - 1) as nat);
    }
}

proof fn lemma_stripped_keeps_quiet(d: DeviceModel, slots: Seq<Slot>, n: nat)
    requires
        d.ctx.quiet(),
    ensures
        d.stripped(slots, n).ctx.quiet(),
    decreases n,
{
    if n > 0 {
        lemma_stripped_keeps_quiet(d, slots, (n - 1) as nat);
    }
}

/// A device ends by freeing each of its buffers once, in some order, and then
/// taking the kernel of every place away.
pub proof fn law_ended_device_frees_each_buffer_once(
    d: DeviceModel,
    order: Seq<u32>,
    after: DeviceModel,
    n: nat,
    i: int,
)
    requires
        d.ended_in(order, after),
        n < order.len(),
        0 <= i < 40,
    ensures
        d.buffers.contains_key(order[n as int]),
        d.emptied(order, 0) == d,
        d.emptied(order, n + 1) == d.emptied(order, n).freeing(order[n as int]).0,
        after == d.emptied(order, order.len()).stripped(all_slots(), 40),
        all_slots().len() == 40,
        all_slots()[i].place() == i,
{
    assert(order.contains(order[n as int]));
}

} // verus!
