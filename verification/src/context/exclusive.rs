//! At most one live buffer names a driver allocation: a pair is in the pool, in
//! a batch's retirement or with the one buffer that names it, and in no two of
//! these at once.

use super::flush::{FlushModel, FlushOutcome, ThenModel};
use super::{BufferModel, ContextModel, SubmittedModel};
use crate::batch::FlushReason;
use crate::driver::Reply;
use crate::pool::{Pair, PoolModel};
use vstd::prelude::*;

verus! {

/// How often a driver buffer occurs in a row of pairs.
pub open spec fn occurrences(pairs: Seq<Pair>, buffer: u64) -> nat
    decreases pairs.len(),
{
    if pairs.len() == 0 {
        0
    } else {
        occurrences(pairs.drop_last(), buffer) + (if pairs.last().buffer == buffer {
            1nat
        } else {
            0
        })
    }
}

/// How often a driver buffer occurs in what a flush in progress holds.
pub open spec fn held_in_flush(f: Option<FlushModel>, buffer: u64) -> nat {
    match f {
        None => 0,
        Some(FlushModel::End(t)) | Some(FlushModel::Reset(t)) | Some(FlushModel::Submit(t)) => {
            occurrences(t.batch.retired, buffer)
        },
        Some(FlushModel::Wait(s, then))
        | Some(FlushModel::Idle(s, then, _))
        | Some(FlushModel::Stamps(s, then, _)) => occurrences(s.retired, buffer) + (match then {
            ThenModel::Own(own, _) => occurrences(own.retired, buffer),
            _ => 0,
        }),
    }
}

/// How often a driver buffer occurs in the context and in a flush of it.
pub open spec fn parked(m: ContextModel, f: Option<FlushModel>, buffer: u64) -> nat {
    occurrences(m.pool.pairs, buffer) + (match m.recorder {
        Some(r) => occurrences(r.retired, buffer),
        None => 0,
    }) + (match m.in_flight {
        Some(s) => occurrences(s.retired, buffer),
        None => 0,
    }) + held_in_flush(f, buffer)
}

/// Some buffer of a caller names a driver buffer.
pub open spec fn owned(owners: Map<u64, u64>, buffer: u64) -> bool {
    exists|id: u64| owners.contains_key(id) && #[trigger] owners[id] == buffer
}

/// At most one place has a driver buffer: one caller's buffer, the pool, or one
/// batch. `owners` maps the ids of the live buffers to what they name.
pub open spec fn exclusive(
    m: ContextModel,
    f: Option<FlushModel>,
    owners: Map<u64, u64>,
) -> bool {
    &&& owners.dom() == m.live
    &&& forall|a: u64, b: u64|
        owners.contains_key(a) && owners.contains_key(b) && #[trigger] owners[a]
            == #[trigger] owners[b] ==> a == b
    &&& forall|buffer: u64| #[trigger] parked(m, f, buffer) <= 1
    &&& forall|buffer: u64| #[trigger] owned(owners, buffer) ==> parked(m, f, buffer) == 0
}

proof fn lemma_occurrences_push(pairs: Seq<Pair>, pair: Pair, buffer: u64)
    ensures
        occurrences(pairs.push(pair), buffer) == occurrences(pairs, buffer) + (if pair.buffer
            == buffer {
            1nat
        } else {
            0
        }),
{
    assert(pairs.push(pair).drop_last() =~= pairs);
}

proof fn lemma_occurrences_remove(pairs: Seq<Pair>, i: int, buffer: u64)
    requires
        0 <= i < pairs.len(),
    ensures
        occurrences(pairs, buffer) == occurrences(pairs.remove(i), buffer) + (if pairs[i].buffer
            == buffer {
            1nat
        } else {
            0
        }),
    decreases pairs.len(),
{
    let rest = pairs.drop_last();
    if i == pairs.len() - 1 {
        assert(pairs.remove(i) =~= rest);
    } else {
        lemma_occurrences_remove(rest, i, buffer);
        assert(pairs.remove(i).drop_last() =~= rest.remove(i));
        assert(pairs.remove(i).last() == pairs.last());
    }
}

proof fn lemma_occurrences_recycled(p: PoolModel, pairs: Seq<Pair>, buffer: u64)
    ensures
        occurrences(p.recycled_all(pairs).pairs, buffer) <= occurrences(p.pairs, buffer)
            + occurrences(pairs, buffer),
    decreases pairs.len(),
{
    if pairs.len() > 0 {
        lemma_occurrences_recycled(p, pairs.drop_last(), buffer);
        let before = p.recycled_all(pairs.drop_last());
        lemma_occurrences_push(before.pairs, pairs.last(), buffer);
    }
}

proof fn lemma_fewer_parked_is_exclusive(
    m: ContextModel,
    f: Option<FlushModel>,
    after: ContextModel,
    g: Option<FlushModel>,
    owners: Map<u64, u64>,
)
    requires
        exclusive(m, f, owners),
        after.live == m.live,
        forall|buffer: u64| #[trigger] parked(after, g, buffer) <= parked(m, f, buffer),
    ensures
        exclusive(after, g, owners),
{
}

/// A new allocation, which the driver never gave out while it was in use, makes
/// a buffer that is alone in naming it.
pub proof fn law_an_adopted_pair_has_one_owner(
    m: ContextModel,
    owners: Map<u64, u64>,
    buffer: u64,
    memory: u64,
    bytes: u64,
)
    requires
        m.wf(),
        m.next_buffer < u64::MAX,
        exclusive(m, None, owners),
        parked(m, None, buffer) == 0,
        !owned(owners, buffer),
    ensures
        exclusive(
            m.adopted(buffer, memory, bytes).0,
            None,
            owners.insert(m.next_buffer, buffer),
        ),
{
    let after = m.adopted(buffer, memory, bytes).0;
    let now = owners.insert(m.next_buffer, buffer);
    assert(!m.live.contains(m.next_buffer));
    lemma_owner_added(m, owners, m.next_buffer, buffer);
    assert forall|b: u64| #[trigger] parked(after, None, b) <= 1 by {
        assert(parked(after, None, b) == parked(m, None, b));
    }
    assert forall|b: u64| #[trigger] owned(now, b) implies parked(after, None, b) == 0 by {
        assert(parked(after, None, b) == parked(m, None, b));
        if b != buffer {
            assert(owned(owners, b));
        }
    }
}

proof fn lemma_owner_added(m: ContextModel, owners: Map<u64, u64>, id: u64, buffer: u64)
    requires
        exclusive(m, None, owners),
        !m.live.contains(id),
        !owned(owners, buffer),
    ensures
        owners.insert(id, buffer).dom() == m.live.insert(id),
        forall|a: u64, b: u64|
            owners.insert(id, buffer).contains_key(a) && owners.insert(id, buffer).contains_key(b)
                && #[trigger] owners.insert(id, buffer)[a] == #[trigger] owners.insert(
                id,
                buffer,
            )[b] ==> a == b,
        forall|b: u64|
            b != buffer && #[trigger] owned(owners.insert(id, buffer), b) ==> owned(owners, b),
{
    let now = owners.insert(id, buffer);
    assert(now.dom() =~= m.live.insert(id));
    assert forall|a: u64, b: u64|
        now.contains_key(a) && now.contains_key(b) && #[trigger] now[a]
            == #[trigger] now[b] implies a == b by {
        if a == id && b != id {
            assert(owners[b] == buffer);
            assert(owned(owners, buffer));
        }
        if b == id && a != id {
            assert(owners[a] == buffer);
            assert(owned(owners, buffer));
        }
        if a != id && b != id {
            assert(owners[a] == owners[b]);
        }
    }
    assert forall|b: u64| b != buffer && #[trigger] owned(now, b) implies owned(owners, b) by {
        let w = choose|w: u64| now.contains_key(w) && #[trigger] now[w] == b;
        assert(w != id);
        assert(owners[w] == b);
    }
}

/// A pair taken from the pool leaves it: the buffer it becomes is alone in
/// naming it.
pub proof fn law_a_pooled_pair_has_one_owner(
    m: ContextModel,
    owners: Map<u64, u64>,
    bytes: u64,
)
    requires
        m.wf(),
        m.next_buffer < u64::MAX,
        exclusive(m, None, owners),
        m.requesting(bytes).1 is Ready,
    ensures
        exclusive(
            m.requesting(bytes).0,
            None,
            owners.insert(m.next_buffer, m.requesting(bytes).1->Ready_0.buffer),
        ),
{
    let allocated = super::whole_words(bytes as int) as u64;
    let i = m.pool.found(allocated)->0;
    crate::pool::law_pool_serves_by_exact_size(
        m.pool.pairs,
        allocated,
        m.pool.pairs.len() as int,
    );
    let buffer = m.pool.pairs[i].buffer;
    let after = m.requesting(bytes).0;
    let now = owners.insert(m.next_buffer, buffer);
    lemma_occurrences_remove(m.pool.pairs, i, buffer);
    assert(parked(m, None, buffer) == 1);
    assert(!owned(owners, buffer));
    assert(!m.live.contains(m.next_buffer));
    lemma_owner_added(m, owners, m.next_buffer, buffer);
    assert forall|b: u64| #[trigger] parked(after, None, b) <= 1 by {
        lemma_occurrences_remove(m.pool.pairs, i, b);
        assert(parked(m, None, b) <= 1);
    }
    assert forall|b: u64| #[trigger] owned(now, b) implies parked(after, None, b) == 0 by {
        lemma_occurrences_remove(m.pool.pairs, i, b);
        assert(parked(m, None, b) <= 1);
        if b != buffer {
            assert(owned(owners, b));
        }
    }
}

/// The context without an owner, and its pair parked somewhere once more.
proof fn lemma_owner_removed(
    m: ContextModel,
    owners: Map<u64, u64>,
    id: u64,
    after: ContextModel,
    g: Option<FlushModel>,
)
    requires
        exclusive(m, None, owners),
        m.live.contains(id),
        after.live == m.live.remove(id),
        forall|b: u64|
            #[trigger] parked(after, g, b) <= parked(m, None, b) + (if b == owners[id] {
                1nat
            } else {
                0
            }),
    ensures
        exclusive(after, g, owners.remove(id)),
{
    let now = owners.remove(id);
    assert(owners.contains_key(id));
    assert(now.dom() =~= m.live.remove(id));
    assert(owned(owners, owners[id]));
    assert forall|a: u64, b: u64|
        now.contains_key(a) && now.contains_key(b) && #[trigger] now[a]
            == #[trigger] now[b] implies a == b by {
        assert(owners[a] == owners[b]);
    }
    assert forall|b: u64| #[trigger] parked(after, g, b) <= 1 by {
        assert(parked(m, None, b) <= 1);
    }
    assert forall|b: u64| #[trigger] owned(now, b) implies parked(after, g, b) == 0 by {
        let w = choose|w: u64| now.contains_key(w) && #[trigger] now[w] == b;
        assert(owners[w] == b);
        assert(owned(owners, b));
        assert(b != owners[id]);
    }
}

/// The flush that an outcome leaves in progress.
pub open spec fn pending_flush(next: FlushOutcome) -> Option<FlushModel> {
    match next {
        FlushOutcome::Pending(f) => Some(f),
        _ => None,
    }
}

proof fn lemma_flushing_parks_no_more(m: ContextModel, reason: FlushReason, buffer: u64)
    requires
        m.ledger.usable(),
    ensures
        m.flushing(reason).0.live == m.live,
        parked(m.flushing(reason).0, pending_flush(m.flushing(reason).1), buffer) <= parked(
            m,
            None,
            buffer,
        ),
{
    reveal(ContextModel::flushing);
}

/// A freed buffer's pair has no owner any more, and is parked in one place.
pub proof fn law_a_freed_pair_is_parked_once(
    m: ContextModel,
    owners: Map<u64, u64>,
    b: BufferModel,
)
    requires
        m.wf(),
        exclusive(m, None, owners),
        m.live.contains(b.id),
        owners[b.id] == b.buffer,
    ensures
        exclusive(m.freed(b).0, pending_flush(m.freed(b).1), owners.remove(b.id)),
{
    let after = m.freed(b).0;
    let g = pending_flush(m.freed(b).1);
    let pair = b.pair();
    if m.tuning.pool_mode is Immediate {
        assert forall|h: u64|
            #[trigger] parked(after, g, h) <= parked(m, None, h) + (if h == owners[b.id] {
                1nat
            } else {
                0
            }) by {
            lemma_occurrences_push(m.pool.pairs, pair, h);
        }
    } else {
        lemma_retired_pair_is_parked(m, owners, b);
    }
    lemma_owner_removed(m, owners, b.id, after, g);
}

proof fn lemma_retired_pair_is_parked(m: ContextModel, owners: Map<u64, u64>, b: BufferModel)
    requires
        m.wf(),
        exclusive(m, None, owners),
        m.live.contains(b.id),
        owners[b.id] == b.buffer,
        m.tuning.pool_mode is Retired,
    ensures
        m.freed(b).0.live == m.live.remove(b.id),
        forall|h: u64|
            #[trigger] parked(m.freed(b).0, pending_flush(m.freed(b).1), h) <= parked(m, None, h)
                + (if h == owners[b.id] {
                1nat
            } else {
                0
            }),
{
    let after = m.freed(b).0;
    let g = pending_flush(m.freed(b).1);
    let pair = b.pair();
    match m.recorder {
        Some(r) => {
            let plan = r.plan.retired(b.bytes, 2);
            let retired = ContextModel {
                live: m.live.remove(b.id),
                recorder: Some(
                    super::RecorderModel { plan, retired: r.retired.push(pair), ..r },
                ),
                ..m
            };
            assert forall|h: u64|
                #[trigger] parked(after, g, h) <= parked(m, None, h) + (if h == owners[b.id] {
                    1nat
                } else {
                    0
                }) by {
                lemma_occurrences_push(r.retired, pair, h);
                if let Some(reason) = plan.over_budget() {
                    lemma_flushing_parks_no_more(retired, reason, h);
                }
            }
            if let Some(reason) = plan.over_budget() {
                lemma_flushing_parks_no_more(retired, reason, 0);
            }
        },
        None => {
            assert forall|h: u64|
                #[trigger] parked(after, g, h) <= parked(m, None, h) + (if h == owners[b.id] {
                    1nat
                } else {
                    0
                }) by {
                match m.in_flight {
                    Some(s) => {
                        lemma_occurrences_push(s.retired, pair, h);
                    },
                    None => {
                        lemma_occurrences_push(m.pool.pairs, pair, h);
                    },
                }
            }
        },
    }
}

proof fn lemma_discharge_parks_no_more(m: ContextModel, s: SubmittedModel, buffer: u64)
    ensures
        m.discharged(s).live == m.live,
        m.discharged(s).recorder == m.recorder,
        m.discharged(s).in_flight == m.in_flight,
        occurrences(m.discharged(s).pool.pairs, buffer) <= occurrences(m.pool.pairs, buffer)
            + occurrences(s.retired, buffer),
{
    lemma_occurrences_recycled(m.pool, s.retired, buffer);
}

/// No step of a flush makes a second owner of a pair or parks one twice.
pub proof fn law_a_flush_keeps_pairs_exclusive(
    m: ContextModel,
    f: FlushModel,
    reply: Reply,
    owners: Map<u64, u64>,
)
    requires
        m.wf(),
        f.held_by(m),
        f.next_call().admits(reply),
        exclusive(m, Some(f), owners),
    ensures
        exclusive(
            m.flush_after(f, reply).0,
            pending_flush(m.flush_after(f, reply).1),
            owners,
        ),
{
    let after = m.flush_after(f, reply).0;
    let g = pending_flush(m.flush_after(f, reply).1);
    assert forall|b: u64| #[trigger] parked(after, g, b) <= parked(m, Some(f), b) by {
        lemma_flush_step_parks_no_more(m, f, reply, b);
    }
    lemma_flush_step_parks_no_more(m, f, reply, 0);
    lemma_fewer_parked_is_exclusive(m, Some(f), after, g, owners);
}

proof fn lemma_flush_step_parks_no_more(
    m: ContextModel,
    f: FlushModel,
    reply: Reply,
    buffer: u64,
)
    requires
        m.wf(),
        f.held_by(m),
        f.next_call().admits(reply),
    ensures
        m.flush_after(f, reply).0.live == m.live,
        parked(m.flush_after(f, reply).0, pending_flush(m.flush_after(f, reply).1), buffer)
            <= parked(m, Some(f), buffer),
{
    if f is End || f is Reset || f is Submit {
        lemma_submitting_parks_no_more(m, f, reply, buffer);
    } else if f is Idle {
        lemma_idle_parks_no_more(m, f, reply, buffer);
    } else {
        lemma_waiting_parks_no_more(m, f, reply, buffer);
    }
}

proof fn lemma_submitting_parks_no_more(
    m: ContextModel,
    f: FlushModel,
    reply: Reply,
    buffer: u64,
)
    requires
        m.wf(),
        f.held_by(m),
        f.next_call().admits(reply),
        f is End || f is Reset || f is Submit,
    ensures
        m.flush_after(f, reply).0.live == m.live,
        parked(m.flush_after(f, reply).0, pending_flush(m.flush_after(f, reply).1), buffer)
            <= parked(m, Some(f), buffer),
{
    reveal(ContextModel::flush_after);
    match f {
        FlushModel::End(t) | FlushModel::Reset(t) | FlushModel::Submit(t) => {
            lemma_occurrences_recycled(m.pool, t.batch.retired, buffer);
        },
        _ => {},
    }
}

proof fn lemma_waiting_parks_no_more(
    m: ContextModel,
    f: FlushModel,
    reply: Reply,
    buffer: u64,
)
    requires
        m.wf(),
        f.held_by(m),
        f.next_call().admits(reply),
        f is Wait || f is Stamps,
    ensures
        m.flush_after(f, reply).0.live == m.live,
        parked(m.flush_after(f, reply).0, pending_flush(m.flush_after(f, reply).1), buffer)
            <= parked(m, Some(f), buffer),
{
    reveal(ContextModel::flush_after);
    match f {
        FlushModel::Wait(s, then) | FlushModel::Stamps(s, then, _) => {
            lemma_discharge_parks_no_more(m, s, buffer);
            if let Reply::Span { sum, min, max } = reply {
                lemma_discharge_parks_no_more(m.accumulated(s.stamps, sum, min, max), s, buffer);
            }
        },
        _ => {},
    }
}

proof fn lemma_idle_parks_no_more(
    m: ContextModel,
    f: FlushModel,
    reply: Reply,
    buffer: u64,
)
    requires
        m.wf(),
        f.held_by(m),
        f.next_call().admits(reply),
        f is Idle,
    ensures
        m.flush_after(f, reply).0.live == m.live,
        parked(m.flush_after(f, reply).0, pending_flush(m.flush_after(f, reply).1), buffer)
            <= parked(m, Some(f), buffer),
{
    reveal(ContextModel::flush_after);
    if let FlushModel::Idle(s, then, wait) = f {
        let idle = crate::one_shot::failure_of(reply);
        lemma_give_up_parks_no_more(m, s, then, buffer);
        lemma_give_up_parks_no_more(
            m.poisoned_by(super::flush::batch_lost_text(s.what, wait, idle), true),
            s,
            then,
            buffer,
        );
        if let Some(code) = idle {
            lemma_give_up_parks_no_more(
                m.poisoned_by(super::flush::batch_unknown_text(s.what, wait, code), false),
                s,
                then,
                buffer,
            );
        }
    }
}

proof fn lemma_give_up_parks_no_more(
    m: ContextModel,
    s: SubmittedModel,
    then: ThenModel,
    buffer: u64,
)
    ensures
        m.given_up(s, then).live == m.live,
        m.given_up(s, then).recorder == m.recorder,
        m.given_up(s, then).in_flight == m.in_flight,
        occurrences(m.given_up(s, then).pool.pairs, buffer) <= occurrences(m.pool.pairs, buffer)
            + occurrences(s.retired, buffer) + (match then {
            ThenModel::Own(own, _) => occurrences(own.retired, buffer),
            _ => 0,
        }),
{
    lemma_discharge_parks_no_more(m, s, buffer);
    if let ThenModel::Own(own, _) = then {
        lemma_discharge_parks_no_more(m.discharged(s), own, buffer);
    }
}

} // verus!
