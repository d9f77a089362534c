//! The free list of buffer pairs: freed buffers' driver objects held for
//! re-use by size, under a ceiling.

use crate::ledger::{lemma_destroyed_twice, pair_orders, Ledger, Order};
use vstd::prelude::*;

verus! {

/// A buffer's driver objects and the size they were allocated with.
#[derive(Clone, Copy, Debug, PartialEq, Eq, Structural)]
pub struct Pair {
    pub buffer: u64,
    pub memory: u64,
    pub allocated: u64,
}

/// What the pool has done.
#[derive(Clone, Copy, Debug, PartialEq, Eq, Structural)]
pub struct PoolStats {
    /// Buffer requests served without an allocation.
    pub hits: u64,
    /// Buffer requests that allocated.
    pub misses: u64,
    /// Freed pairs the pool took back.
    pub returns: u64,
    /// Freed pairs destroyed because holding them would cross the ceiling.
    pub declined: u64,
    /// Pairs destroyed by a drain.
    pub drained: u64,
    /// Allocation failures that drained the pool and retried.
    pub reclaims: u64,
    /// Driver objects the pool holds, two for each pair.
    pub held_objects: i64,
    /// Allocated bytes the pool holds.
    pub held_bytes: u64,
}

/// The bytes a row of pairs holds.
pub open spec fn held(pairs: Seq<Pair>) -> nat
    decreases pairs.len(),
{
    if pairs.len() == 0 {
        0
    } else {
        held(pairs.drop_last()) + pairs.last().allocated as nat
    }
}

/// The orders that destroy a row of pairs.
pub open spec fn all_pair_orders(pairs: Seq<Pair>) -> Seq<Order>
    decreases pairs.len(),
{
    if pairs.len() == 0 {
        Seq::empty()
    } else {
        all_pair_orders(pairs.drop_last()) + pair_orders(pairs.last().buffer, pairs.last().memory)
    }
}

/// The last place a size occurs at, among the first `n`.
pub open spec fn last_of(pairs: Seq<Pair>, allocated: u64, n: int) -> Option<int>
    decreases n,
{
    if n <= 0 {
        None
    } else if pairs[n - 1].allocated == allocated {
        Some(n - 1)
    } else {
        last_of(pairs, allocated, n - 1)
    }
}

/// What a `Pool` holds.
#[verifier::ext_equal]
pub ghost struct PoolModel {
    pub pairs: Seq<Pair>,
    pub max_bytes: u64,
    pub enabled: bool,
    pub hits: u64,
    pub misses: u64,
    pub returns: u64,
    pub declined: u64,
    pub drained: u64,
    pub reclaims: u64,
}

impl PoolModel {
    /// The held bytes are a number, and every pair has a word at least.
    pub open spec fn wf(self) -> bool {
        &&& held(self.pairs) <= u64::MAX
        &&& forall|i: int| 0 <= i < self.pairs.len() ==> (#[trigger] self.pairs[i]).allocated >= 4
    }

    /// The pool would hold this many more bytes without crossing its ceiling.
    pub open spec fn admits(self, allocated: u64) -> bool {
        self.enabled && held(self.pairs) + allocated <= self.max_bytes
    }

    /// The place of the pair that a request of this size takes.
    pub open spec fn found(self, allocated: u64) -> Option<int> {
        if self.enabled {
            last_of(self.pairs, allocated, self.pairs.len() as int)
        } else {
            None
        }
    }

    pub open spec fn taken(self, i: int) -> PoolModel {
        PoolModel { pairs: self.pairs.remove(i), ..self }
    }

    /// The pool once a freed pair came back to it.
    pub open spec fn recycled(self, pair: Pair) -> PoolModel {
        if self.admits(pair.allocated) {
            PoolModel {
                pairs: self.pairs.push(pair),
                returns: self.returns.wrapping_add(1),
                ..self
            }
        } else if self.enabled {
            PoolModel { declined: self.declined.wrapping_add(1), ..self }
        } else {
            self
        }
    }

    /// The pool once a row of freed pairs came back to it.
    pub open spec fn recycled_all(self, pairs: Seq<Pair>) -> PoolModel
        decreases pairs.len(),
    {
        if pairs.len() == 0 {
            self
        } else {
            self.recycled_all(pairs.drop_last()).recycled(pairs.last())
        }
    }

    /// The orders that destroy those of a row that the pool does not take.
    pub open spec fn declined_orders(self, pairs: Seq<Pair>) -> Seq<Order>
        decreases pairs.len(),
    {
        if pairs.len() == 0 {
            Seq::empty()
        } else {
            let before = self.recycled_all(pairs.drop_last());
            let pair = pairs.last();
            self.declined_orders(pairs.drop_last()) + (if before.admits(pair.allocated) {
                Seq::empty()
            } else {
                pair_orders(pair.buffer, pair.memory)
            })
        }
    }

    pub open spec fn cleared(self) -> PoolModel {
        PoolModel {
            pairs: Seq::empty(),
            drained: self.drained.wrapping_add(self.pairs.len() as u64),
            ..self
        }
    }

    /// The pool without so many of its pairs, newest first.
    pub open spec fn evicted_to(self, n: nat) -> PoolModel {
        PoolModel {
            pairs: self.pairs.take(n as int),
            drained: self.drained.wrapping_add((self.pairs.len() - n) as u64),
            ..self
        }
    }

    /// How many pairs stay when the pool is brought inside its ceiling.
    pub open spec fn kept(self, n: nat) -> nat
        decreases n,
    {
        if n == 0 || held(self.pairs.take(n as int)) <= self.max_bytes {
            n
        } else {
            self.kept((n - 1) as nat)
        }
    }
}

/// The orders that destroy pairs from the newest down to the `n`th.
pub open spec fn evict_orders(pairs: Seq<Pair>, n: nat) -> Seq<Order>
    decreases pairs.len(),
{
    if pairs.len() <= n || pairs.len() == 0 {
        Seq::empty()
    } else {
        pair_orders(pairs.last().buffer, pairs.last().memory) + evict_orders(pairs.drop_last(), n)
    }
}

/// A pool that holds what its ceiling admits still does after any row of
/// returns, and what it did not take is destroyed, two objects for each pair.
pub proof fn law_pool_stays_under_its_ceiling(m: PoolModel, pairs: Seq<Pair>)
    requires
        m.wf(),
        held(m.pairs) <= m.max_bytes,
        forall|i: int| 0 <= i < pairs.len() ==> (#[trigger] pairs[i]).allocated >= 4,
    ensures
        m.recycled_all(pairs).wf(),
        m.recycled_all(pairs).max_bytes == m.max_bytes,
        m.recycled_all(pairs).enabled == m.enabled,
        held(m.recycled_all(pairs).pairs) <= m.max_bytes,
        m.recycled_all(pairs).pairs.len() - m.pairs.len() + m.declined_orders(pairs).len() / 2
            == pairs.len(),
        m.declined_orders(pairs).len() % 2 == 0,
    decreases pairs.len(),
{
    if pairs.len() > 0 {
        law_pool_stays_under_its_ceiling(m, pairs.drop_last());
        let before = m.recycled_all(pairs.drop_last());
        assert(before.pairs.push(pairs.last()).drop_last() =~= before.pairs);
    }
}

/// A request takes a pair of exactly its size, and finds one wherever the
/// enabled pool holds one.
pub proof fn law_pool_serves_by_exact_size(pairs: Seq<Pair>, allocated: u64, n: int)
    requires
        0 <= n <= pairs.len(),
    ensures
        match last_of(pairs, allocated, n) {
            Some(i) => 0 <= i < n && pairs[i].allocated == allocated,
            None => forall|i: int| 0 <= i < n ==> (#[trigger] pairs[i]).allocated != allocated,
        },
    decreases n,
{
    if n > 0 {
        law_pool_serves_by_exact_size(pairs, allocated, n - 1);
    }
}

proof fn lemma_held_remove(pairs: Seq<Pair>, i: int)
    requires
        0 <= i < pairs.len(),
    ensures
        held(pairs.remove(i)) + pairs[i].allocated == held(pairs),
    decreases pairs.len(),
{
    let rest = pairs.drop_last();
    if i == pairs.len() - 1 {
        assert(pairs.remove(i) =~= rest);
    } else {
        lemma_held_remove(rest, i);
        assert(pairs.remove(i).drop_last() =~= rest.remove(i));
        assert(pairs.remove(i).last() == pairs.last());
    }
}

proof fn lemma_held_at_least(pairs: Seq<Pair>)
    requires
        forall|i: int| 0 <= i < pairs.len() ==> (#[trigger] pairs[i]).allocated >= 4,
    ensures
        4 * pairs.len() <= held(pairs),
    decreases pairs.len(),
{
    if pairs.len() > 0 {
        assert(pairs.last() == pairs[pairs.len() - 1]);
        lemma_held_at_least(pairs.drop_last());
    }
}

/// The free list of one context.
#[derive(Debug)]
pub struct Pool {
    pairs: Vec<Pair>,
    bytes: u64,
    max_bytes: u64,
    enabled: bool,
    hits: u64,
    misses: u64,
    returns: u64,
    declined: u64,
    drained: u64,
    reclaims: u64,
}

impl View for Pool {
    type V = PoolModel;

    closed spec fn view(&self) -> PoolModel {
        PoolModel {
            pairs: self.pairs@,
            max_bytes: self.max_bytes,
            enabled: self.enabled,
            hits: self.hits,
            misses: self.misses,
            returns: self.returns,
            declined: self.declined,
            drained: self.drained,
            reclaims: self.reclaims,
        }
    }
}

/// The pool of a fresh context.
pub open spec fn fresh_pool(max_bytes: u64, enabled: bool) -> PoolModel {
    PoolModel {
        pairs: Seq::empty(),
        max_bytes,
        enabled,
        hits: 0,
        misses: 0,
        returns: 0,
        declined: 0,
        drained: 0,
        reclaims: 0,
    }
}

impl Pool {
    /// The byte count is what the held pairs come to.
    pub closed spec fn wf(&self) -> bool {
        self@.wf() && self.bytes == held(self.pairs@)
    }

    pub fn new(max_bytes: u64, enabled: bool) -> (r: Self)
        ensures
            r.wf(),
            r@ == fresh_pool(max_bytes, enabled),
    {
        Pool {
            pairs: Vec::new(),
            bytes: 0,
            max_bytes,
            enabled,
            hits: 0,
            misses: 0,
            returns: 0,
            declined: 0,
            drained: 0,
            reclaims: 0,
        }
    }

    pub proof fn lemma_wf(&self)
        requires
            self.wf(),
        ensures
            self@.wf(),
    {
    }

    /// Take a pair of the requested allocated size, if the pool holds one, and
    /// count the hit or the miss.
    pub fn take_pooled(&mut self, allocated: u64) -> (r: Option<Pair>)
        requires
            old(self).wf(),
        ensures
            final(self).wf(),
            match old(self)@.found(allocated) {
                Some(i) => {
                    &&& r == Some(old(self)@.pairs[i])
                    &&& r->0.allocated == allocated
                    &&& final(self)@ == (PoolModel {
                        hits: old(self)@.hits.wrapping_add(1),
                        ..old(self)@.taken(i)
                    })
                },
                None => {
                    &&& r is None
                    &&& final(self)@ == (PoolModel {
                        misses: old(self)@.misses.wrapping_add(1),
                        ..old(self)@
                    })
                },
            },
    {
        if self.enabled {
            let mut n: usize = self.pairs.len();
            while n > 0 && self.pairs[n - 1].allocated != allocated
                invariant
                    n <= self.pairs.len(),
                    last_of(self.pairs@, allocated, self.pairs@.len() as int) == last_of(
                        self.pairs@,
                        allocated,
                        n as int,
                    ),
                decreases n,
            {
                n -= 1;
            }
            if n > 0 {
                proof {
                    lemma_held_remove(self.pairs@, n - 1);
                }
                let pair: Pair = self.pairs.remove(n - 1);
                self.bytes = self.bytes - pair.allocated;
                self.hits = self.hits.wrapping_add(1);
                return Some(pair);
            }
        }
        self.misses = self.misses.wrapping_add(1);
        None
    }

    /// Take a freed pair back for re-use, or destroy it where the pool is off or
    /// holding it would cross the ceiling.
    pub fn recycle_or_destroy(&mut self, ledger: &mut Ledger, pair: Pair)
        requires
            old(self).wf(),
            pair.allocated >= 4,
        ensures
            final(self).wf(),
            final(self)@ == old(self)@.recycled(pair),
            final(ledger)@ == (if old(self)@.admits(pair.allocated) {
                old(ledger)@
            } else {
                old(ledger)@.destroyed_all(pair_orders(pair.buffer, pair.memory))
            }),
    {
        if self.enabled {
            match self.bytes.checked_add(pair.allocated) {
                Some(total) => if total <= self.max_bytes {
                    self.pairs.push(pair);
                    proof {
                        assert(self.pairs@.drop_last() =~= old(self).pairs@);
                    }
                    self.bytes = total;
                    self.returns = self.returns.wrapping_add(1);
                    proof {
                        assert(self@ =~= old(self)@.recycled(pair));
                    }
                    return;
                },
                None => {},
            }
            self.declined = self.declined.wrapping_add(1);
        }
        ledger.destroy_pair(pair.buffer, pair.memory);
    }

    /// As `recycle_or_destroy`, for a row of freed pairs.
    pub fn recycle_all(&mut self, ledger: &mut Ledger, pairs: &Vec<Pair>)
        requires
            old(self).wf(),
            forall|i: int| 0 <= i < pairs@.len() ==> (#[trigger] pairs@[i]).allocated >= 4,
        ensures
            final(self).wf(),
            final(self)@ == old(self)@.recycled_all(pairs@),
            final(ledger)@ == old(ledger)@.destroyed_all(old(self)@.declined_orders(pairs@)),
    {
        let ghost m = self@;
        let ghost l = ledger@;
        let mut i: usize = 0;
        proof {
            assert(pairs@.take(0) =~= Seq::<Pair>::empty());
        }
        while i < pairs.len()
            invariant
                i <= pairs.len(),
                self.wf(),
                forall|i: int| 0 <= i < pairs@.len() ==> (#[trigger] pairs@[i]).allocated >= 4,
                self@ == m.recycled_all(pairs@.take(i as int)),
                ledger@ == l.destroyed_all(m.declined_orders(pairs@.take(i as int))),
            decreases pairs.len() - i,
        {
            let ghost before = self@;
            let pair: Pair = pairs[i];
            proof {
                let next = pairs@.take(i + 1);
                assert(next.drop_last() =~= pairs@.take(i as int));
                assert(next.last() == pair);
                let row = m.declined_orders(pairs@.take(i as int));
                lemma_destroyed_twice(l, row, pair_orders(pair.buffer, pair.memory));
                assert(row + Seq::<Order>::empty() =~= row);
            }
            self.recycle_or_destroy(ledger, pair);
            i += 1;
        }
        proof {
            assert(pairs@.take(i as int) =~= pairs@);
        }
    }

    /// Destroy every pair the pool holds.
    pub fn clear(&mut self, ledger: &mut Ledger)
        requires
            old(self).wf(),
        ensures
            final(self).wf(),
            final(self)@ == old(self)@.cleared(),
            final(ledger)@ == old(ledger)@.destroyed_all(all_pair_orders(old(self)@.pairs)),
    {
        let ghost l = ledger@;
        let n: usize = self.pairs.len();
        let mut i: usize = 0;
        proof {
            assert(self.pairs@.take(0) =~= Seq::<Pair>::empty());
        }
        while i < n
            invariant
                i <= n,
                n == self.pairs@.len(),
                ledger@ == l.destroyed_all(all_pair_orders(self.pairs@.take(i as int))),
            decreases n - i,
        {
            let pair: Pair = self.pairs[i];
            proof {
                let next = self.pairs@.take(i + 1);
                assert(next.drop_last() =~= self.pairs@.take(i as int));
                assert(next.last() == pair);
                lemma_destroyed_twice(
                    l,
                    all_pair_orders(self.pairs@.take(i as int)),
                    pair_orders(pair.buffer, pair.memory),
                );
            }
            ledger.destroy_pair(pair.buffer, pair.memory);
            i += 1;
        }
        proof {
            assert(self.pairs@.take(i as int) =~= self.pairs@);
        }
        self.drained = self.drained.wrapping_add(n as u64);
        self.pairs.clear();
        self.bytes = 0;
    }

    /// Destroy pairs, newest first, until the pool is inside its ceiling.
    fn evict_to_ceiling(&mut self, ledger: &mut Ledger)
        requires
            old(self).wf(),
        ensures
            final(self).wf(),
            final(self)@ == old(self)@.evicted_to(old(self)@.kept(old(self)@.pairs.len())),
            held(final(self)@.pairs) <= final(self)@.max_bytes,
            final(ledger)@ == old(ledger)@.destroyed_all(
                evict_orders(old(self)@.pairs, old(self)@.kept(old(self)@.pairs.len())),
            ),
    {
        let ghost m = self@;
        let ghost l = ledger@;
        let ghost goal = m.kept(m.pairs.len());
        let ghost mut row: Seq<Order> = Seq::empty();
        let mut evicted: u64 = 0;
        proof {
            assert(m.pairs.take(m.pairs.len() as int) =~= m.pairs);
            lemma_kept(m, m.pairs.len());
            assert(row + evict_orders(m.pairs, goal) =~= evict_orders(m.pairs, goal));
            lemma_held_at_least(m.pairs);
        }
        while self.bytes > self.max_bytes
            invariant
                self.wf(),
                m.wf(),
                4 * m.pairs.len() <= u64::MAX,
                self@ == (PoolModel { pairs: m.pairs.take(self.pairs@.len() as int), ..m }),
                self.pairs@.len() <= m.pairs.len(),
                evicted == m.pairs.len() - self.pairs@.len(),
                goal == m.kept(self.pairs@.len()),
                goal == m.kept(m.pairs.len()),
                goal <= self.pairs@.len(),
                ledger@ == l.destroyed_all(row),
                row + evict_orders(self.pairs@, goal) == evict_orders(m.pairs, goal),
            decreases self.pairs@.len(),
        {
            let ghost before = self.pairs@;
            proof {
                lemma_kept(m, (before.len() - 1) as nat);
            }
            match self.pairs.pop() {
                Some(pair) => {
                    proof {
                        let po = pair_orders(pair.buffer, pair.memory);
                        lemma_destroyed_twice(l, row, po);
                        assert(before.drop_last() =~= self.pairs@);
                        assert(row + po + evict_orders(self.pairs@, goal) =~= row + (po
                            + evict_orders(self.pairs@, goal)));
                        row = row + po;
                        assert(m.pairs.take(before.len() as int).drop_last() =~= m.pairs.take(
                            before.len() - 1,
                        ));
                    }
                    self.bytes = self.bytes - pair.allocated;
                    ledger.destroy_pair(pair.buffer, pair.memory);
                    evicted += 1;
                },
                None => {},
            }
        }
        proof {
            assert(self.pairs@ == m.pairs.take(self.pairs@.len() as int));
            assert(goal == self.pairs@.len());
            assert(evict_orders(self.pairs@, goal) =~= Seq::<Order>::empty());
            assert(row + Seq::<Order>::empty() =~= row);
        }
        self.drained = self.drained.wrapping_add(evicted);
        proof {
            assert(self@ =~= m.evicted_to(goal));
        }
    }

    /// Turn the pool on or off; turning it off drains it.
    pub fn set_enabled(&mut self, ledger: &mut Ledger, on: bool)
        requires
            old(self).wf(),
        ensures
            final(self).wf(),
            final(self)@ == (if on {
                PoolModel { enabled: true, ..old(self)@ }
            } else {
                PoolModel { enabled: false, ..old(self)@.cleared() }
            }),
            final(ledger)@ == (if on {
                old(ledger)@
            } else {
                old(ledger)@.destroyed_all(all_pair_orders(old(self)@.pairs))
            }),
    {
        self.enabled = on;
        if !on {
            self.clear(ledger);
        }
    }

    /// Set the ceiling and bring the pool inside it.
    pub fn set_max_bytes(&mut self, ledger: &mut Ledger, bytes: u64)
        requires
            old(self).wf(),
        ensures
            final(self).wf(),
            ({
                let m = PoolModel { max_bytes: bytes, ..old(self)@ };
                &&& final(self)@ == m.evicted_to(m.kept(m.pairs.len()))
                &&& final(ledger)@ == old(ledger)@.destroyed_all(
                    evict_orders(m.pairs, m.kept(m.pairs.len())),
                )
            }),
            held(final(self)@.pairs) <= bytes,
    {
        self.max_bytes = bytes;
        proof {
            assert(self@ =~= PoolModel { max_bytes: bytes, ..old(self)@ });
        }
        self.evict_to_ceiling(ledger);
    }

    /// Give everything back for one more attempt at an allocation that failed;
    /// says whether there was anything to give.
    pub fn reclaim(&mut self, ledger: &mut Ledger) -> (r: bool)
        requires
            old(self).wf(),
        ensures
            final(self).wf(),
            r == (old(self)@.pairs.len() > 0),
            !r ==> final(self)@ == old(self)@ && final(ledger)@ == old(ledger)@,
            r ==> final(self)@ == (PoolModel {
                reclaims: old(self)@.reclaims.wrapping_add(1),
                ..old(self)@.cleared()
            }) && final(ledger)@ == old(ledger)@.destroyed_all(
                all_pair_orders(old(self)@.pairs),
            ),
    {
        if self.pairs.len() == 0 {
            return false;
        }
        self.clear(ledger);
        self.reclaims = self.reclaims.wrapping_add(1);
        true
    }

    pub fn enabled(&self) -> (r: bool)
        ensures
            r == self@.enabled,
    {
        self.enabled
    }

    /// Driver objects the pool holds, two for each pair.
    pub fn pooled_objects(&self) -> (r: i64)
        requires
            self.wf(),
        ensures
            r == 2 * self@.pairs.len(),
    {
        proof {
            lemma_held_at_least(self.pairs@);
        }
        2 * (self.pairs.len() as i64)
    }

    pub fn stats(&self) -> (r: PoolStats)
        requires
            self.wf(),
        ensures
            r == (PoolStats {
                hits: self@.hits,
                misses: self@.misses,
                returns: self@.returns,
                declined: self@.declined,
                drained: self@.drained,
                reclaims: self@.reclaims,
                held_objects: (2 * self@.pairs.len()) as i64,
                held_bytes: held(self@.pairs) as u64,
            }),
    {
        PoolStats {
            hits: self.hits,
            misses: self.misses,
            returns: self.returns,
            declined: self.declined,
            drained: self.drained,
            reclaims: self.reclaims,
            held_objects: self.pooled_objects(),
            held_bytes: self.bytes,
        }
    }
}

proof fn lemma_kept(m: PoolModel, n: nat)
    requires
        n <= m.pairs.len(),
    ensures
        m.kept(n) <= n,
        held(m.pairs.take(m.kept(n) as int)) <= m.max_bytes,
    decreases n,
{
    if n == 0 {
        assert(m.pairs.take(0) =~= Seq::<Pair>::empty());
    } else if held(m.pairs.take(n as int)) > m.max_bytes {
        lemma_kept(m, (n - 1) as nat);
    }
}

/// A request takes the newest pair of exactly its size, and none where the pool
/// is off or holds no such pair.
pub proof fn law_newest_pair_of_the_size_is_taken(m: PoolModel, allocated: u64)
    ensures
        match m.found(allocated) {
            Some(i) => {
                &&& m.enabled && 0 <= i < m.pairs.len()
                &&& m.pairs[i].allocated == allocated
                &&& forall|j: int|
                    i < j < m.pairs.len() ==> (#[trigger] m.pairs[j]).allocated != allocated
                &&& m.taken(i).pairs == m.pairs.take(i) + m.pairs.skip(i + 1)
            },
            None => !m.enabled || forall|j: int|
                0 <= j < m.pairs.len() ==> (#[trigger] m.pairs[j]).allocated != allocated,
        },
{
    lemma_last_of(m.pairs, allocated, m.pairs.len() as int);
    if let Some(i) = m.found(allocated) {
        assert(m.pairs.remove(i) =~= m.pairs.take(i) + m.pairs.skip(i + 1));
    }
}

proof fn lemma_last_of(pairs: Seq<Pair>, allocated: u64, n: int)
    requires
        0 <= n <= pairs.len(),
    ensures
        match last_of(pairs, allocated, n) {
            Some(i) => 0 <= i < n && pairs[i].allocated == allocated && forall|j: int|
                i < j < n ==> (#[trigger] pairs[j]).allocated != allocated,
            None => forall|i: int| 0 <= i < n ==> (#[trigger] pairs[i]).allocated != allocated,
        },
    decreases n,
{
    if n > 0 {
        lemma_last_of(pairs, allocated, n - 1);
    }
}

/// What a pool holds grows by each pair it takes back and shrinks by each pair
/// it hands out; an empty pool holds nothing.
pub proof fn law_held_bytes_are_those_of_the_pairs(pairs: Seq<Pair>, pair: Pair, i: int)
    requires
        0 <= i < pairs.len(),
    ensures
        held(Seq::empty()) == 0,
        held(pairs.push(pair)) == held(pairs) + pair.allocated,
        held(pairs.remove(i)) == held(pairs) - pairs[i].allocated,
{
    assert(pairs.push(pair).drop_last() =~= pairs);
    lemma_held_remove(pairs, i);
}

/// A pair is kept exactly where the pool is on and stays within its ceiling with
/// it; it then becomes the newest. The counters tell which happened.
pub proof fn law_returned_pair_is_kept_or_declined(m: PoolModel, pair: Pair)
    ensures
        m.enabled && held(m.pairs) + pair.allocated <= m.max_bytes ==> m.recycled(pair) == (
        PoolModel { pairs: m.pairs + seq![pair], returns: m.returns.wrapping_add(1), ..m }),
        m.enabled && held(m.pairs) + pair.allocated > m.max_bytes ==> m.recycled(pair) == (
        PoolModel { declined: m.declined.wrapping_add(1), ..m }),
        !m.enabled ==> m.recycled(pair) == m,
{
    assert(m.pairs.push(pair) =~= m.pairs + seq![pair]);
}

/// A drain destroys the buffer and the memory of every pair, oldest first, and
/// counts each pair once.
pub proof fn law_drain_destroys_every_pair(m: PoolModel, i: int)
    requires
        0 <= i < m.pairs.len() <= u64::MAX,
    ensures
        all_pair_orders(m.pairs).len() == 2 * m.pairs.len(),
        all_pair_orders(m.pairs)[2 * i] == Order::DestroyBuffer(m.pairs[i].buffer),
        all_pair_orders(m.pairs)[2 * i + 1] == Order::FreeMemory(m.pairs[i].memory),
        m.cleared().pairs.len() == 0,
        m.drained + m.pairs.len() <= u64::MAX ==> m.cleared().drained == m.drained
            + m.pairs.len(),
        m.cleared() == (PoolModel {
            pairs: m.cleared().pairs,
            drained: m.cleared().drained,
            ..m
        }),
{
    lemma_all_pair_orders(m.pairs, i);
}

proof fn lemma_all_pair_orders(pairs: Seq<Pair>, i: int)
    ensures
        all_pair_orders(pairs).len() == 2 * pairs.len(),
        0 <= i < pairs.len() ==> all_pair_orders(pairs)[2 * i] == Order::DestroyBuffer(
            pairs[i].buffer,
        ) && all_pair_orders(pairs)[2 * i + 1] == Order::FreeMemory(pairs[i].memory),
    decreases pairs.len(),
{
    if pairs.len() > 0 {
        lemma_all_pair_orders(pairs.drop_last(), i);
    }
}

/// Bringing a pool inside its ceiling destroys the newest pairs, newest first,
/// and no more of them than it must.
pub proof fn law_eviction_keeps_the_oldest_that_fit(m: PoolModel, j: int)
    requires
        m.pairs.len() <= u64::MAX,
    ensures
        ({
            let n = m.kept(m.pairs.len());
            let row = evict_orders(m.pairs, n);
            &&& n <= m.pairs.len()
            &&& held(m.pairs.take(n as int)) <= m.max_bytes
            &&& n < j <= m.pairs.len() ==> held(m.pairs.take(j)) > m.max_bytes
            &&& m.evicted_to(n).pairs == m.pairs.take(n as int)
            &&& m.drained + m.pairs.len() <= u64::MAX ==> m.evicted_to(n).drained == m.drained + (
            m.pairs.len() - n)
            &&& row.len() == 2 * (m.pairs.len() - n)
            &&& 0 <= j < m.pairs.len() - n ==> row[2 * j] == Order::DestroyBuffer(
                m.pairs[m.pairs.len() - 1 - j].buffer,
            )
            &&& 0 <= j < m.pairs.len() - n ==> row[2 * j + 1] == Order::FreeMemory(
                m.pairs[m.pairs.len() - 1 - j].memory,
            )
        }),
{
    lemma_kept(m, m.pairs.len());
    lemma_kept_is_the_most(m, m.pairs.len(), j);
    lemma_evict_orders(m.pairs, m.kept(m.pairs.len()), j);
}

proof fn lemma_kept_is_the_most(m: PoolModel, n: nat, j: int)
    ensures
        m.kept(n) < j <= n ==> held(m.pairs.take(j)) > m.max_bytes,
    decreases n,
{
    if n > 0 && held(m.pairs.take(n as int)) > m.max_bytes {
        lemma_kept_is_the_most(m, (n - 1) as nat, j);
    }
}

proof fn lemma_evict_orders(pairs: Seq<Pair>, n: nat, j: int)
    requires
        n <= pairs.len(),
    ensures
        evict_orders(pairs, n).len() == 2 * (pairs.len() - n),
        0 <= j < pairs.len() - n ==> evict_orders(pairs, n)[2 * j] == Order::DestroyBuffer(
            pairs[pairs.len() - 1 - j].buffer,
        ) && evict_orders(pairs, n)[2 * j + 1] == Order::FreeMemory(
            pairs[pairs.len() - 1 - j].memory,
        ),
    decreases pairs.len(),
{
    if pairs.len() > n {
        let rest = pairs.drop_last();
        lemma_evict_orders(rest, n, j - 1);
        if 0 < j < pairs.len() - n {
            assert(rest[rest.len() - 1 - (j - 1)] == pairs[pairs.len() - 1 - j]);
            assert(evict_orders(pairs, n)[2 * j] == evict_orders(rest, n)[2 * (j - 1)]);
            assert(evict_orders(pairs, n)[2 * j + 1] == evict_orders(rest, n)[2 * (j - 1) + 1]);
        }
    }
}

} // verus!
