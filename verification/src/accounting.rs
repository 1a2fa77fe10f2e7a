//! The engine's memory and cost totals are exactly the sums over the stored
//! entries: every operation keeps them so.

use vstd::prelude::*;
use crate::engine::{
    complete_lease_at, delete, empty_engine, entry_index, evict, expire_at,
    first_expired, get_at, has_tag, invalidate, least_recent, lemma_first_expired_range,
    lemma_least_recent_range, lru_sample, put_at, reclaim, remove_at, remove_entry, start_lease_at,
    touch, is_entry, CompleteLeaseModel, EngineLimits, EngineModel, EngineStats, EntryModel,
    PutModel, sat_add_u64, memory_kept,
};
use crate::seqs::{find_first, lemma_find_first};

verus! {

/// The memory of the entries, added up.
pub open spec fn memory_sum(es: Seq<EntryModel>) -> int
    decreases es.len(),
{
    if es.len() == 0 {
        0
    } else {
        memory_sum(es.drop_last()) + es.last().memory_bytes
    }
}

/// The cost score of an entry: its cost, or nothing.
pub open spec fn cost_of(e: EntryModel) -> int {
    match e.cost {
        Some(c) => c as int,
        None => 0,
    }
}

/// The cost scores of the entries, added up.
pub open spec fn cost_sum(es: Seq<EntryModel>) -> int
    decreases es.len(),
{
    if es.len() == 0 {
        0
    } else {
        cost_sum(es.drop_last()) + cost_of(es.last())
    }
}

/// The memory in use is the memory of the stored entries.
pub open spec fn memory_exact(m: EngineModel) -> bool {
    m.memory_used_bytes == memory_sum(m.entries)
}

/// The cost total is the cost of the stored entries.
pub open spec fn cost_exact(m: EngineModel) -> bool {
    m.cost_score_total == cost_sum(m.entries)
}

proof fn lemma_sums_nonneg(es: Seq<EntryModel>)
    ensures
        memory_sum(es) >= 0,
        cost_sum(es) >= 0,
    decreases es.len(),
{
    if es.len() > 0 {
        lemma_sums_nonneg(es.drop_last());
    }
}

proof fn lemma_sums_remove(es: Seq<EntryModel>, i: int)
    requires
        0 <= i < es.len(),
    ensures
        memory_sum(es.remove(i)) == memory_sum(es) - es[i].memory_bytes,
        cost_sum(es.remove(i)) == cost_sum(es) - cost_of(es[i]),
    decreases es.len(),
{
    let r = es.remove(i);
    if i == es.len() - 1 {
        assert(r =~= es.drop_last());
    } else {
        lemma_sums_remove(es.drop_last(), i);
        assert(r.drop_last() =~= es.drop_last().remove(i));
        assert(r.last() == es.last());
    }
}

proof fn lemma_sums_update(es: Seq<EntryModel>, i: int, e: EntryModel)
    requires
        0 <= i < es.len(),
        e.memory_bytes == es[i].memory_bytes,
        e.cost == es[i].cost,
    ensures
        memory_sum(es.update(i, e)) == memory_sum(es),
        cost_sum(es.update(i, e)) == cost_sum(es),
    decreases es.len(),
{
    let r = es.update(i, e);
    if i == es.len() - 1 {
        assert(r.drop_last() =~= es.drop_last());
    } else {
        lemma_sums_update(es.drop_last(), i, e);
        assert(r.drop_last() =~= es.drop_last().update(i, e));
    }
}

proof fn lemma_sums_push(es: Seq<EntryModel>, e: EntryModel)
    ensures
        memory_sum(es.push(e)) == memory_sum(es) + e.memory_bytes,
        cost_sum(es.push(e)) == cost_sum(es) + cost_of(e),
{
    assert(es.push(e).drop_last() =~= es);
}

proof fn lemma_remove_at_exact(m: EngineModel, i: int)
    requires
        0 <= i < m.entries.len(),
    ensures
        memory_exact(m) ==> memory_exact(remove_at(m, i)) && memory_exact(expire_at(m, i)),
        cost_exact(m) ==> cost_exact(remove_at(m, i)) && cost_exact(expire_at(m, i)),
{
    lemma_sums_remove(m.entries, i);
    lemma_sums_nonneg(m.entries.remove(i));
}

proof fn lemma_touch_exact(m: EngineModel, i: int)
    requires
        0 <= i < m.entries.len(),
    ensures
        memory_exact(m) ==> memory_exact(touch(m, i)),
        cost_exact(m) ==> cost_exact(touch(m, i)),
{
    lemma_sums_update(m.entries, i, EntryModel { last_access: m.next_access, ..m.entries[i] });
}

proof fn lemma_reclaim_exact(m: EngineModel, now: u64, budget: nat)
    ensures
        memory_exact(m) ==> memory_exact(reclaim(m, now, budget).1),
        cost_exact(m) ==> cost_exact(reclaim(m, now, budget).1),
        reclaim(m, now, budget).1.limits == m.limits,
    decreases budget,
{
    if budget > 0 {
        let i = first_expired(m.entries, now, m.entries.len() as int);
        lemma_first_expired_range(m.entries, now, m.entries.len() as int);
        if i >= 0 {
            lemma_remove_at_exact(m, i);
            let m1 = expire_at(m, i);
            let m2 = EngineModel {
                stats: EngineStats { expirations: sat_add_u64(m1.stats.expirations as int, 1), ..m1.stats },
                ..m1
            };
            lemma_reclaim_exact(m2, now, (budget - 1) as nat);
        }
    }
}

proof fn lemma_evict_exact(m: EngineModel, incoming: usize, fuel: nat)
    ensures
        memory_exact(m) ==> memory_exact(evict(m, incoming, fuel).1),
        cost_exact(m) ==> cost_exact(evict(m, incoming, fuel).1),
        evict(m, incoming, fuel).1.limits == m.limits,
    decreases fuel,
{
    if !(crate::engine::fits(m, incoming) || m.entries.len() == 0 || fuel == 0) {
        let i = least_recent(m.entries, lru_sample(m));
        lemma_least_recent_range(m.entries, lru_sample(m));
        lemma_remove_at_exact(m, i);
        let m1 = remove_at(m, i);
        let m2 = EngineModel {
            stats: EngineStats { evictions: sat_add_u64(m1.stats.evictions as int, 1), ..m1.stats },
            ..m1
        };
        lemma_evict_exact(m2, incoming, (fuel - 1) as nat);
    }
}

proof fn lemma_invalidate_exact(m: EngineModel, ns: Seq<char>, tag: Seq<char>, fuel: nat)
    ensures
        memory_exact(m) ==> memory_exact(invalidate(m, ns, tag, fuel).1),
        cost_exact(m) ==> cost_exact(invalidate(m, ns, tag, fuel).1),
    decreases fuel,
{
    let i = find_first(m.entries, has_tag(ns, tag), m.entries.len() as int);
    lemma_find_first(m.entries, has_tag(ns, tag), m.entries.len() as int);
    if fuel > 0 && i >= 0 {
        lemma_remove_at_exact(m, i);
        lemma_invalidate_exact(remove_at(m, i), ns, tag, (fuel - 1) as nat);
    }
}

proof fn lemma_remove_entry_exact(m: EngineModel, ns: Seq<char>, key: Seq<u8>)
    ensures
        memory_exact(m) ==> memory_exact(remove_entry(m, ns, key).1),
        cost_exact(m) ==> cost_exact(remove_entry(m, ns, key).1),
{
    let i = entry_index(m.entries, ns, key);
    lemma_find_first(m.entries, is_entry(ns, key), m.entries.len() as int);
    if i >= 0 {
        lemma_remove_at_exact(m, i);
    }
}

proof fn lemma_put_exact(m: EngineModel, c: PutModel, now: u64)
    ensures
        memory_exact(m) && m.limits.max_memory_bytes < usize::MAX ==> memory_exact(put_at(m, c, now).1),
        cost_exact(m) && cost_sum(put_at(m, c, now).1.entries) <= u64::MAX ==> cost_exact(
            put_at(m, c, now).1,
        ),
{
    let mem = crate::engine::entry_memory(c);
    let m1 = remove_entry(m, c.namespace, c.key).1;
    lemma_remove_entry_exact(m, c.namespace, c.key);
    lemma_reclaim_exact(m1, now, usize::MAX as nat);
    let m2 = if !crate::engine::fits(m1, mem) {
        reclaim(m1, now, usize::MAX as nat).1
    } else {
        m1
    };
    lemma_evict_exact(m2, mem, m2.entries.len());
    let m3 = evict(m2, mem, m2.entries.len()).1;
    let r = put_at(m, c, now).1;
    if c.value.len() <= m.limits.max_value_bytes && mem <= m.limits.max_memory_bytes
        && crate::engine::fits(m3, mem) {
        let e = r.entries.last();
        assert(r.entries == m3.entries.push(e));
        lemma_sums_push(m3.entries, e);
        lemma_sums_nonneg(m3.entries);
        assert(e.memory_bytes == mem);
        assert(cost_of(e) == match c.cost {
            Some(v) => v as int,
            None => 0,
        });
    }
}

/// A new engine's totals are exact: nothing stored, nothing counted.
pub proof fn law_new_engine_exact(limits: EngineLimits)
    ensures
        memory_exact(empty_engine(limits)),
        cost_exact(empty_engine(limits)),
{
}

/// A write keeps the memory in use equal to the memory of the stored
/// entries, under a memory cap below the largest `usize` (at that cap the
/// counter could stop at its largest value); it keeps the cost total equal
/// to the cost of the stored entries while that sum fits a `u64`, where the
/// counter stops.
pub proof fn law_put_keeps_totals_exact(m: EngineModel, c: PutModel, now: u64)
    ensures
        memory_exact(m) && m.limits.max_memory_bytes < usize::MAX ==> memory_exact(put_at(m, c, now).1),
        cost_exact(m) && cost_sum(put_at(m, c, now).1.entries) <= u64::MAX ==> cost_exact(
            put_at(m, c, now).1,
        ),
{
    lemma_put_exact(m, c, now);
}

/// A lease completion keeps the totals exact as a write does.
pub proof fn law_complete_lease_keeps_totals_exact(m: EngineModel, c: CompleteLeaseModel, now: u64)
    ensures
        memory_exact(m) && m.limits.max_memory_bytes < usize::MAX ==> memory_exact(
            complete_lease_at(m, c, now).1,
        ),
        cost_exact(m) && cost_sum(complete_lease_at(m, c, now).1.entries) <= u64::MAX ==> cost_exact(
            complete_lease_at(m, c, now).1,
        ),
{
    let m1 = EngineModel { leases: crate::engine::without_lease(m.leases, c.put.namespace, c.put.key), ..m };
    lemma_put_exact(m1, c.put, now);
}

/// A read keeps both totals exact, also where it removes an expired entry.
pub proof fn law_get_keeps_totals_exact(
    m: EngineModel,
    ns: Seq<char>,
    key: Seq<u8>,
    now: u64,
    update_access: bool,
)
    ensures
        memory_exact(m) ==> memory_exact(get_at(m, ns, key, now, update_access).1),
        cost_exact(m) ==> cost_exact(get_at(m, ns, key, now, update_access).1),
{
    let i = entry_index(m.entries, ns, key);
    lemma_find_first(m.entries, is_entry(ns, key), m.entries.len() as int);
    if i >= 0 {
        lemma_touch_exact(m, i);
        lemma_remove_at_exact(m, i);
    }
}

/// A lease request keeps both totals exact.
pub proof fn law_start_lease_keeps_totals_exact(m: EngineModel, ns: Seq<char>, key: Seq<u8>, ttl: u64, now: u64)
    ensures
        memory_exact(m) ==> memory_exact(start_lease_at(m, ns, key, ttl, now).1),
        cost_exact(m) ==> cost_exact(start_lease_at(m, ns, key, ttl, now).1),
{
    let i = entry_index(m.entries, ns, key);
    lemma_find_first(m.entries, is_entry(ns, key), m.entries.len() as int);
    if i >= 0 {
        lemma_touch_exact(m, i);
        lemma_remove_at_exact(m, i);
    }
}

/// A delete keeps both totals exact.
pub proof fn law_delete_keeps_totals_exact(m: EngineModel, ns: Seq<char>, key: Seq<u8>)
    ensures
        memory_exact(m) ==> memory_exact(delete(m, ns, key).1),
        cost_exact(m) ==> cost_exact(delete(m, ns, key).1),
{
    let m1 = EngineModel { leases: crate::engine::without_lease(m.leases, ns, key), ..m };
    lemma_remove_entry_exact(m1, ns, key);
}

/// A tag invalidation keeps both totals exact.
pub proof fn law_invalidate_keeps_totals_exact(m: EngineModel, ns: Seq<char>, tag: Seq<char>, fuel: nat)
    ensures
        memory_exact(m) ==> memory_exact(invalidate(m, ns, tag, fuel).1),
        cost_exact(m) ==> cost_exact(invalidate(m, ns, tag, fuel).1),
{
    lemma_invalidate_exact(m, ns, tag, fuel);
}

/// Reclaiming expired entries keeps both totals exact.
pub proof fn law_reclaim_keeps_totals_exact(m: EngineModel, now: u64, budget: nat)
    ensures
        memory_exact(m) ==> memory_exact(reclaim(m, now, budget).1),
        cost_exact(m) ==> cost_exact(reclaim(m, now, budget).1),
{
    lemma_reclaim_exact(m, now, budget);
}

/// Reclaiming and evicting keep the limits.
pub(crate) proof fn lemma_limits_kept(m: EngineModel, now: u64, incoming: usize, fuel: nat)
    ensures
        reclaim(m, now, usize::MAX as nat).1.limits == m.limits,
        evict(m, incoming, fuel).1.limits == m.limits,
        evict(reclaim(m, now, usize::MAX as nat).1, incoming, fuel).1.limits == m.limits,
{
    lemma_reclaim_exact(m, now, usize::MAX as nat);
    lemma_evict_exact(m, incoming, fuel);
    lemma_evict_exact(reclaim(m, now, usize::MAX as nat).1, incoming, fuel);
}

/// A write keeps the memory counter exact (`memory_kept`).
pub(crate) proof fn lemma_memory_kept_put(m: EngineModel, c: PutModel, now: u64)
    requires
        memory_kept(m),
    ensures
        memory_kept(put_at(m, c, now).1),
{
    lemma_put_exact(m, c, now);
    lemma_put_limits(m, c, now);
}

/// A lease completion keeps the memory counter exact.
pub(crate) proof fn lemma_memory_kept_complete(m: EngineModel, c: CompleteLeaseModel, now: u64)
    requires
        memory_kept(m),
    ensures
        memory_kept(complete_lease_at(m, c, now).1),
{
    let m1 = EngineModel { leases: crate::engine::without_lease(m.leases, c.put.namespace, c.put.key), ..m };
    lemma_put_exact(m1, c.put, now);
    lemma_put_limits(m1, c.put, now);
}

/// Reads, lease requests, deletes, tag invalidations and reclaiming keep
/// the memory counter exact.
pub(crate) proof fn lemma_memory_kept_others(
    m: EngineModel,
    ns: Seq<char>,
    key: Seq<u8>,
    tag: Seq<char>,
    now: u64,
    ttl: u64,
    update_access: bool,
    budget: nat,
)
    requires
        memory_kept(m),
    ensures
        memory_kept(get_at(m, ns, key, now, update_access).1),
        memory_kept(start_lease_at(m, ns, key, ttl, now).1),
        memory_kept(delete(m, ns, key).1),
        memory_kept(invalidate(m, ns, tag, m.entries.len()).1),
        memory_kept(reclaim(m, now, budget).1),
{
    law_get_keeps_totals_exact(m, ns, key, now, update_access);
    law_start_lease_keeps_totals_exact(m, ns, key, ttl, now);
    law_delete_keeps_totals_exact(m, ns, key);
    lemma_invalidate_exact(m, ns, tag, m.entries.len());
    lemma_invalidate_limits(m, ns, tag, m.entries.len());
    lemma_reclaim_exact(m, now, budget);
}

/// Every operation keeps the memory counter exact under a memory cap short
/// of the largest `usize`, so an engine reached from a new one by any
/// requests has the memory of its stored entries in use.
pub proof fn law_operations_keep_memory_kept(
    m: EngineModel,
    c: PutModel,
    lease: CompleteLeaseModel,
    ns: Seq<char>,
    key: Seq<u8>,
    tag: Seq<char>,
    now: u64,
    ttl: u64,
    update_access: bool,
    budget: nat,
)
    requires
        memory_kept(m),
    ensures
        memory_kept(put_at(m, c, now).1),
        memory_kept(complete_lease_at(m, lease, now).1),
        memory_kept(get_at(m, ns, key, now, update_access).1),
        memory_kept(start_lease_at(m, ns, key, ttl, now).1),
        memory_kept(delete(m, ns, key).1),
        memory_kept(invalidate(m, ns, tag, m.entries.len()).1),
        memory_kept(reclaim(m, now, budget).1),
{
    lemma_memory_kept_put(m, c, now);
    lemma_memory_kept_complete(m, lease, now);
    lemma_memory_kept_others(m, ns, key, tag, now, ttl, update_access, budget);
}

proof fn lemma_invalidate_limits(m: EngineModel, ns: Seq<char>, tag: Seq<char>, fuel: nat)
    ensures
        invalidate(m, ns, tag, fuel).1.limits == m.limits,
    decreases fuel,
{
    let i = find_first(m.entries, has_tag(ns, tag), m.entries.len() as int);
    if fuel > 0 && i >= 0 {
        lemma_invalidate_limits(remove_at(m, i), ns, tag, (fuel - 1) as nat);
    }
}

proof fn lemma_put_limits(m: EngineModel, c: PutModel, now: u64)
    ensures
        put_at(m, c, now).1.limits == m.limits,
{
    let mem = crate::engine::entry_memory(c);
    let m1 = remove_entry(m, c.namespace, c.key).1;
    lemma_reclaim_exact(m1, now, usize::MAX as nat);
    let m2 = if !crate::engine::fits(m1, mem) {
        reclaim(m1, now, usize::MAX as nat).1
    } else {
        m1
    };
    lemma_evict_exact(m2, mem, m2.entries.len());
}

} // verus!
