//! What the engine promises across operations: a value written is read
//! back, deletes are idempotent, tag invalidation removes exactly the tagged
//! entries of the namespace, a lease is granted to one caller at a time and
//! its token completes it, and an entry only ages from fresh to stale to
//! expired.

use vstd::prelude::*;
use crate::engine::{
    active_lease, complete_lease_at, create_lease, delete, empty_engine, engine_wf, entry_index,
    entry_memory, evict, fits, get_at, has_tag, invalidate, is_entry, is_lease, lease_index,
    lease_token, leases_unique, put_at, reclaim, expire_at, expired_at, first_expired, EngineStats,
    lemma_first_expired_range, remove_at, remove_entry, sat_add_u64,
    start_lease_at, state_at, touch, without_lease, lemma_absent_evict, lemma_absent_reclaim,
    lemma_leases_remove_unique, lemma_remove_entry_absent, CompleteLeaseError, CompleteLeaseModel,
    EngineLimits, EngineModel, EntryModel, EntryState, GetModel, LeaseModel, PutModel, PutOutcome, StartLeaseModel,
};
use crate::seqs::{find_first, lemma_find_first, lemma_find_first_absent, lemma_find_first_at};

verus! {

/// After a successful write, no other entry has its id and it is the last
/// entry.
proof fn lemma_put_stores_last(m: EngineModel, c: PutModel, now: u64)
    requires
        engine_wf(m),
        put_at(m, c, now).0 is Ok,
    ensures
        ({
            let m4 = put_at(m, c, now).1;
            &&& m4.entries.len() > 0
            &&& entry_index(m4.entries, c.namespace, c.key) == m4.entries.len() - 1
            &&& m4.entries.last().value == c.value
            &&& m4.entries.last().expires_at_ms == (match c.ttl {
                Some(t) => Some(sat_add_u64(now as int, t.milliseconds as int)),
                None => None,
            })
            &&& m4.entries.last().stale_until_ms == (match (c.ttl, c.stale_ttl) {
                (Some(t), Some(st)) => Some(
                    sat_add_u64(sat_add_u64(now as int, t.milliseconds as int) as int, st.milliseconds as int),
                ),
                _ => None,
            })
        }),
{
    let mem = entry_memory(c);
    let m1 = remove_entry(m, c.namespace, c.key).1;
    lemma_remove_entry_absent(m, c.namespace, c.key);
    let m2 = if !fits(m1, mem) {
        reclaim(m1, now, usize::MAX as nat).1
    } else {
        m1
    };
    if !fits(m1, mem) {
        lemma_absent_reclaim(m1, now, usize::MAX as nat, c.namespace, c.key);
    }
    let m3 = evict(m2, mem, m2.entries.len()).1;
    lemma_absent_evict(m2, mem, m2.entries.len(), c.namespace, c.key);
    let m4 = put_at(m, c, now).1;
    let es = m4.entries;
    assert(es.drop_last() == m3.entries);
    assert forall|j: int| 0 <= j < es.len() - 1 implies !is_entry(c.namespace, c.key)(
        #[trigger] es[j],
    ) by {
        assert(es[j] == m3.entries[j]);
    }
    lemma_find_first_at(es, is_entry(c.namespace, c.key), es.len() - 1);
}

/// Read after write: a value written at `now` is read back as a hit at
/// `now`.
pub proof fn law_put_then_get(m: EngineModel, c: PutModel, now: u64, update_access: bool)
    requires
        engine_wf(m),
        put_at(m, c, now).0 is Ok,
    ensures
        get_at(put_at(m, c, now).1, c.namespace, c.key, now, update_access).0 == GetModel::Hit(
            c.value,
        ),
{
    lemma_put_stores_last(m, c, now);
}

/// A value written at `now` and read at `later`: a hit while it has no
/// expiry or up to its expiry; then, with a stale window, stale up to the
/// window's end; after that a miss, the read removing the entry. The times
/// add up without overflow, stopping at the largest time.
pub proof fn law_put_then_get_later(m: EngineModel, c: PutModel, now: u64, later: u64, update_access: bool)
    requires
        engine_wf(m),
        put_at(m, c, now).0 is Ok,
    ensures
        ({
            let m4 = put_at(m, c, now).1;
            let (r, m5) = get_at(m4, c.namespace, c.key, later, update_access);
            match c.ttl {
                None => r == GetModel::Hit(c.value),
                Some(t) => {
                    let x = sat_add_u64(now as int, t.milliseconds as int);
                    if later <= x {
                        r == GetModel::Hit(c.value)
                    } else {
                        match c.stale_ttl {
                            Some(st) if later <= sat_add_u64(x as int, st.milliseconds as int) => r
                                == GetModel::Stale(c.value),
                            _ => r == GetModel::Miss && m5.entries.len() == m4.entries.len() - 1
                                && m5.leases == m4.leases,
                        }
                    }
                },
            }
        }),
{
    lemma_put_stores_last(m, c, now);
}

/// What a write stores has the windows that a write gives: a stale window
/// only after an expiry, ending no earlier than it.
pub proof fn law_put_windows(m: EngineModel, c: PutModel, now: u64)
    requires
        engine_wf(m),
        put_at(m, c, now).0 is Ok,
    ensures
        windows_as_written(put_at(m, c, now).1.entries.last()),
{
    lemma_put_stores_last(m, c, now);
}

/// A write that fails leaves nothing with its id holding the new value
/// beyond what the failure removed: a refused oversize value changes nothing.
pub proof fn law_refused_write_changes_nothing(m: EngineModel, c: PutModel, now: u64)
    requires
        c.value.len() > m.limits.max_value_bytes || entry_memory(c) > m.limits.max_memory_bytes,
    ensures
        put_at(m, c, now).0 is Err,
        put_at(m, c, now).1 == m,
{
}

/// No lease on the id after its lease is dropped.
proof fn lemma_without_lease_absent(ls: Seq<LeaseModel>, ns: Seq<char>, key: Seq<u8>)
    requires
        leases_unique(ls),
    ensures
        lease_index(without_lease(ls, ns, key), ns, key) == -1,
{
    let p = is_lease(ns, key);
    lemma_find_first(ls, p, ls.len() as int);
    let i = lease_index(ls, ns, key);
    if i >= 0 {
        let r = ls.remove(i);
        assert forall|j: int| 0 <= j < r.len() implies !p(#[trigger] r[j]) by {
            if j < i {
                assert(r[j] == ls[j]);
                assert(!(ls[j].namespace == ls[i].namespace && ls[j].key == ls[i].key));
            } else {
                assert(r[j] == ls[j + 1]);
                assert(!(ls[i].namespace == ls[j + 1].namespace && ls[i].key == ls[j + 1].key));
            }
        }
        lemma_find_first_absent(r, p);
    } else {
        lemma_find_first_absent(ls, p);
    }
}

/// Dropping a lease from a list with no lease on the id changes nothing.
proof fn lemma_without_lease_noop(ls: Seq<LeaseModel>, ns: Seq<char>, key: Seq<u8>)
    requires
        lease_index(ls, ns, key) == -1,
    ensures
        without_lease(ls, ns, key) == ls,
{
}

/// Removing a lease keeps an absent id absent.
proof fn lemma_without_lease_keeps_absent(
    ls: Seq<LeaseModel>,
    ns: Seq<char>,
    key: Seq<u8>,
    ns2: Seq<char>,
    key2: Seq<u8>,
)
    requires
        lease_index(ls, ns, key) == -1,
    ensures
        lease_index(without_lease(ls, ns2, key2), ns, key) == -1,
{
    let p = is_lease(ns, key);
    lemma_find_first(ls, p, ls.len() as int);
    let i = lease_index(ls, ns2, key2);
    if i >= 0 {
        lemma_find_first(ls, is_lease(ns2, key2), ls.len() as int);
        let r = ls.remove(i);
        assert forall|j: int| 0 <= j < r.len() implies !p(#[trigger] r[j]) by {
            if j < i {
                assert(r[j] == ls[j]);
            } else {
                assert(r[j] == ls[j + 1]);
            }
        }
        lemma_find_first_absent(r, p);
    }
}

/// Deleting is idempotent: a second delete of the same id finds nothing and
/// changes nothing.
pub proof fn law_delete_idempotent(m: EngineModel, ns: Seq<char>, key: Seq<u8>)
    requires
        engine_wf(m),
    ensures
        delete(delete(m, ns, key).1, ns, key) == (false, delete(m, ns, key).1),
{
    let m0 = EngineModel { leases: without_lease(m.leases, ns, key), ..m };
    lemma_without_lease_absent(m.leases, ns, key);
    lemma_leases_unique_without(m.leases, ns, key);
    let m1 = delete(m, ns, key).1;
    lemma_remove_entry_absent(m0, ns, key);
    lemma_find_first_absent(m1.entries, is_entry(ns, key));
    let i = entry_index(m0.entries, ns, key);
    if i >= 0 {
        let e = m0.entries[i];
        lemma_without_lease_keeps_absent(m0.leases, ns, key, e.namespace, e.key);
    }
    assert(lease_index(m1.leases, ns, key) == -1);
    lemma_without_lease_noop(m1.leases, ns, key);
    assert(EngineModel { leases: without_lease(m1.leases, ns, key), ..m1 } == m1);
}

proof fn lemma_leases_unique_without(ls: Seq<LeaseModel>, ns: Seq<char>, key: Seq<u8>)
    requires
        leases_unique(ls),
    ensures
        leases_unique(without_lease(ls, ns, key)),
{
    lemma_find_first(ls, is_lease(ns, key), ls.len() as int);
    let i = lease_index(ls, ns, key);
    if i >= 0 {
        lemma_leases_remove_unique(ls, i);
    }
}

/// After a delete nothing is read under the id.
pub proof fn law_delete_then_get(m: EngineModel, ns: Seq<char>, key: Seq<u8>, now: u64, update_access: bool)
    requires
        engine_wf(m),
    ensures
        get_at(delete(m, ns, key).1, ns, key, now, update_access).0 == GetModel::Miss,
{
    let m0 = EngineModel { leases: without_lease(m.leases, ns, key), ..m };
    lemma_remove_entry_absent(m0, ns, key);
    lemma_find_first_absent(delete(m, ns, key).1.entries, is_entry(ns, key));
}

/// Tag invalidation removes every entry of the namespace that carries the
/// tag, and keeps every other entry.
pub proof fn law_invalidate_removes_exactly_tagged(m: EngineModel, ns: Seq<char>, tag: Seq<char>, fuel: nat)
    requires
        fuel >= m.entries.len(),
    ensures
        ({
            let m1 = invalidate(m, ns, tag, fuel).1;
            &&& forall|j: int| 0 <= j < m1.entries.len() ==> !has_tag(ns, tag)(#[trigger] m1.entries[j])
            &&& forall|j: int|
                0 <= j < m.entries.len() && !has_tag(ns, tag)(#[trigger] m.entries[j])
                    ==> m1.entries.contains(m.entries[j])
            &&& m1.entries.len() + invalidate(m, ns, tag, fuel).0 == m.entries.len()
        }),
    decreases fuel,
{
    let p = has_tag(ns, tag);
    let i = find_first(m.entries, p, m.entries.len() as int);
    lemma_find_first(m.entries, p, m.entries.len() as int);
    if fuel == 0 || i < 0 {
        assert forall|j: int| 0 <= j < m.entries.len() && !p(#[trigger] m.entries[j]) implies m.entries.contains(
            m.entries[j],
        ) by {
            assert(m.entries[j] == m.entries[j]);
        }
    } else {
        let mr = remove_at(m, i);
        law_invalidate_removes_exactly_tagged(mr, ns, tag, (fuel - 1) as nat);
        let m1 = invalidate(mr, ns, tag, (fuel - 1) as nat).1;
        assert forall|j: int| 0 <= j < m.entries.len() && !p(#[trigger] m.entries[j]) implies m1.entries.contains(
            m.entries[j],
        ) by {
            let k = if j < i {
                j
            } else {
                j - 1
            };
            assert(j != i);
            assert(mr.entries[k] == m.entries[j]);
        }
    }
}

/// A lease just granted is running for its whole time to live.
proof fn lemma_create_lease_active(m: EngineModel, ns: Seq<char>, key: Seq<u8>, ttl: u64, now: u64, later: u64)
    requires
        now <= later <= sat_add_u64(now as int, ttl as int),
    ensures
        active_lease(create_lease(m, ns, key, ttl, now).1, ns, key, later) == Some(
            LeaseModel {
                namespace: ns,
                key,
                token: lease_token(m.next_access),
                expires_at_ms: sat_add_u64(now as int, ttl as int),
            },
        ),
{
    let p = is_lease(ns, key);
    let ls = m.leases;
    lemma_find_first(ls, p, ls.len() as int);
    let i = lease_index(ls, ns, key);
    let l = LeaseModel {
        namespace: ns,
        key,
        token: lease_token(m.next_access),
        expires_at_ms: sat_add_u64(now as int, ttl as int),
    };
    if i >= 0 {
        let r = ls.update(i, l);
        assert forall|j: int| 0 <= j < i implies !p(#[trigger] r[j]) by {
            assert(r[j] == ls[j]);
        }
        lemma_find_first_at(r, p, i);
    } else {
        let r = ls.push(l);
        assert forall|j: int| 0 <= j < ls.len() implies !p(#[trigger] r[j]) by {
            assert(r[j] == ls[j]);
        }
        lemma_find_first_at(r, p, ls.len() as int);
    }
}

/// A lease is granted to one caller at a time: while a granted lease runs,
/// another request on the id is served a value or denied, never granted.
pub proof fn law_lease_granted_once(
    m: EngineModel,
    ns: Seq<char>,
    key: Seq<u8>,
    ttl: u64,
    now: u64,
    ttl2: u64,
    later: u64,
)
    requires
        start_lease_at(m, ns, key, ttl, now).0 is Granted,
        now <= later <= sat_add_u64(now as int, ttl as int),
    ensures
        !(start_lease_at(start_lease_at(m, ns, key, ttl, now).1, ns, key, ttl2, later).0 is Granted),
{
    lemma_granted_lease_runs(m, ns, key, ttl, now, later);
}

/// A granted lease is running on the id for its whole time to live.
proof fn lemma_granted_lease_runs(m: EngineModel, ns: Seq<char>, key: Seq<u8>, ttl: u64, now: u64, later: u64)
    requires
        start_lease_at(m, ns, key, ttl, now).0 is Granted,
        now <= later <= sat_add_u64(now as int, ttl as int),
    ensures
        active_lease(start_lease_at(m, ns, key, ttl, now).1, ns, key, later) is Some,
{
    let i = entry_index(m.entries, ns, key);
    if i < 0 {
        lemma_create_lease_active(m, ns, key, ttl, now, later);
    } else {
        match state_at(m.entries[i], now) {
            EntryState::Stale => {
                lemma_create_lease_active(touch(m, i), ns, key, ttl, now, later);
            },
            _ => {
                lemma_create_lease_active(remove_at(m, i), ns, key, ttl, now, later);
            },
        }
    }
}

/// A read never ends a lease: the leases after it are those before it, also
/// where the read finds the value expired and removes it.
pub proof fn law_read_keeps_leases(m: EngineModel, ns: Seq<char>, key: Seq<u8>, now: u64, update_access: bool)
    ensures
        get_at(m, ns, key, now, update_access).1.leases == m.leases,
{
}

/// Reclaiming expired entries never ends a lease.
pub proof fn law_reclaim_keeps_leases(m: EngineModel, now: u64, budget: nat)
    ensures
        reclaim(m, now, budget).1.leases == m.leases,
    decreases budget,
{
    if budget > 0 {
        let i = first_expired(m.entries, now, m.entries.len() as int);
        if i >= 0 {
            let m1 = expire_at(m, i);
            let m2 = EngineModel {
                stats: EngineStats { expirations: sat_add_u64(m1.stats.expirations as int, 1), ..m1.stats },
                ..m1
            };
            law_reclaim_keeps_leases(m2, now, (budget - 1) as nat);
        }
    }
}

/// Exactly one client refreshes a value: while a granted lease runs, a read
/// of any id in between, even one that finds the value expired and removes
/// it, leaves the next request on the id served a value or denied, never
/// granted.
pub proof fn law_lease_outlives_read(
    m: EngineModel,
    ns: Seq<char>,
    key: Seq<u8>,
    ttl: u64,
    now: u64,
    read_ns: Seq<char>,
    read_key: Seq<u8>,
    read_at: u64,
    update_access: bool,
    ttl2: u64,
    later: u64,
)
    requires
        start_lease_at(m, ns, key, ttl, now).0 is Granted,
        now <= later <= sat_add_u64(now as int, ttl as int),
    ensures
        ({
            let m1 = start_lease_at(m, ns, key, ttl, now).1;
            let m2 = get_at(m1, read_ns, read_key, read_at, update_access).1;
            !(start_lease_at(m2, ns, key, ttl2, later).0 is Granted)
        }),
{
    lemma_granted_lease_runs(m, ns, key, ttl, now, later);
}

/// The expiry windows that a write gives an entry: a stale window only
/// after an expiry, and ending no earlier than it.
pub open spec fn windows_as_written(e: EntryModel) -> bool {
    match (e.expires_at_ms, e.stale_until_ms) {
        (None, Some(_)) => false,
        (Some(x), Some(s)) => x <= s,
        _ => true,
    }
}

/// Reclaiming counts an entry as expired exactly when a read at the same
/// time finds it expired: never one that a read still serves as fresh or
/// stale.
pub proof fn law_reclaimable_exactly_when_expired(e: EntryModel, now: u64)
    requires
        windows_as_written(e),
    ensures
        expired_at(e, now) == (state_at(e, now) == EntryState::Expired),
{
}

proof fn lemma_first_expired_is_expired(es: Seq<EntryModel>, now: u64, n: int)
    requires
        0 <= n <= es.len(),
    ensures
        first_expired(es, now, n) >= 0 ==> expired_at(es[first_expired(es, now, n)], now),
    decreases n,
{
    if n > 0 {
        lemma_first_expired_is_expired(es, now, n - 1);
    }
}

/// The entry that reclaiming takes next is one that it counts as expired.
pub proof fn law_reclaim_takes_only_expired(m: EngineModel, now: u64)
    ensures
        ({
            let i = first_expired(m.entries, now, m.entries.len() as int);
            i >= 0 ==> expired_at(m.entries[i], now)
        }),
{
    lemma_first_expired_is_expired(m.entries, now, m.entries.len() as int);
}

/// The granted token completes the lease: while the lease runs, completing
/// it with its token writes the value as a write at that time would, after
/// the lease ends.
pub proof fn law_granted_token_completes(
    m: EngineModel,
    ns: Seq<char>,
    key: Seq<u8>,
    ttl: u64,
    now: u64,
    c: PutModel,
    later: u64,
)
    requires
        start_lease_at(m, ns, key, ttl, now).0 is Granted,
        c.namespace == ns,
        c.key == key,
        now <= later <= sat_add_u64(now as int, ttl as int),
    ensures
        ({
            let m1 = start_lease_at(m, ns, key, ttl, now).1;
            let token = start_lease_at(m, ns, key, ttl, now).0->token;
            let (r, m2) = complete_lease_at(m1, CompleteLeaseModel { token, put: c }, later);
            let (pr, pm) = put_at(EngineModel { leases: without_lease(m1.leases, ns, key), ..m1 }, c, later);
            &&& m2 == pm
            &&& (r is Ok <==> pr is Ok)
        }),
{
    let i = entry_index(m.entries, ns, key);
    if i < 0 {
        lemma_create_lease_active(m, ns, key, ttl, now, later);
    } else {
        match state_at(m.entries[i], now) {
            EntryState::Stale => {
                lemma_create_lease_active(touch(m, i), ns, key, ttl, now, later);
            },
            _ => {
                lemma_create_lease_active(remove_at(m, i), ns, key, ttl, now, later);
            },
        }
    }
}

/// A completion with another token than the running lease's is refused and
/// changes nothing.
pub proof fn law_wrong_token_changes_nothing(m: EngineModel, c: CompleteLeaseModel, now: u64)
    requires
        active_lease(m, c.put.namespace, c.put.key, now) matches Some(l) && l.token != c.token,
    ensures
        complete_lease_at(m, c, now) == (
            Err::<PutOutcome, CompleteLeaseError>(CompleteLeaseError::InvalidLeaseToken),
            m,
        ),
{
}

/// An entry only ages: once expired it stays expired, and once stale it is
/// never fresh again.
pub proof fn law_entries_only_age(e: EntryModel, t1: u64, t2: u64)
    requires
        t1 <= t2,
    ensures
        state_at(e, t1) == EntryState::Expired ==> state_at(e, t2) == EntryState::Expired,
        state_at(e, t1) == EntryState::Stale ==> state_at(e, t2) != EntryState::Fresh,
        state_at(e, t2) == EntryState::Fresh ==> state_at(e, t1) == EntryState::Fresh,
{
}

/// The memory in use never exceeds the cap: every operation keeps the
/// engine's invariant, of which that is part; a new engine holds it.
pub proof fn law_new_engine_within_cap(limits: EngineLimits)
    ensures
        engine_wf(empty_engine(limits)),
        empty_engine(limits).memory_used_bytes <= limits.max_memory_bytes,
{
}


proof fn lemma_evict_counts(m: EngineModel, incoming: usize, fuel: nat)
    ensures
        ({
            let (n, r) = evict(m, incoming, fuel);
            &&& r.entries.len() + n == m.entries.len()
            &&& r.stats.evictions == if m.stats.evictions + n > u64::MAX {
                u64::MAX as int
            } else {
                m.stats.evictions + n
            }
        }),
    decreases fuel,
{
    if !(fits(m, incoming) || m.entries.len() == 0 || fuel == 0) {
        let i = crate::engine::least_recent(m.entries, crate::engine::lru_sample(m));
        crate::engine::lemma_least_recent_range(m.entries, crate::engine::lru_sample(m));
        let m1 = remove_at(m, i);
        let m2 = EngineModel {
            stats: EngineStats { evictions: sat_add_u64(m1.stats.evictions as int, 1), ..m1.stats },
            ..m1
        };
        lemma_evict_counts(m2, incoming, (fuel - 1) as nat);
    }
}

proof fn lemma_reclaim_counts(m: EngineModel, now: u64, budget: nat)
    ensures
        reclaim(m, now, budget).1.entries.len() <= m.entries.len(),
        reclaim(m, now, budget).1.stats.evictions == m.stats.evictions,
    decreases budget,
{
    if budget > 0 {
        let i = first_expired(m.entries, now, m.entries.len() as int);
        lemma_first_expired_range(m.entries, now, m.entries.len() as int);
        if i >= 0 {
            let m1 = expire_at(m, i);
            let m2 = EngineModel {
                stats: EngineStats { expirations: sat_add_u64(m1.stats.expirations as int, 1), ..m1.stats },
                ..m1
            };
            lemma_reclaim_counts(m2, now, (budget - 1) as nat);
        }
    }
}

/// A successful write that reports `n` evictions counts them in the stats
/// (the counter stops at the largest `u64`), and leaves at least its own
/// entry and at most one entry more than before less the evicted ones.
pub proof fn law_put_counts_evictions(m: EngineModel, c: PutModel, now: u64)
    requires
        m.entries.len() <= usize::MAX,
    ensures
        ({
            let (r, m4) = put_at(m, c, now);
            r is Ok ==> {
                let n = r->Ok_0.evicted;
                &&& m4.stats.evictions == if m.stats.evictions + n > u64::MAX {
                    u64::MAX as int
                } else {
                    m.stats.evictions + n
                }
                &&& 1 <= m4.entries.len() <= m.entries.len() + 1 - n
                &&& m4.limits == m.limits
            }
        }),
{
    let mem = entry_memory(c);
    let m1 = remove_entry(m, c.namespace, c.key).1;
    let i = entry_index(m.entries, c.namespace, c.key);
    lemma_find_first(m.entries, is_entry(c.namespace, c.key), m.entries.len() as int);
    lemma_reclaim_counts(m1, now, usize::MAX as nat);
    let m2 = if !fits(m1, mem) {
        reclaim(m1, now, usize::MAX as nat).1
    } else {
        m1
    };
    lemma_evict_counts(m2, mem, m2.entries.len());
    crate::accounting::lemma_limits_kept(m1, now, mem, m2.entries.len());
    let (n, m3) = evict(m2, mem, m2.entries.len());
    assert(m1.entries.len() <= m.entries.len());
    assert(m1.stats.evictions == m.stats.evictions);
    assert(m2.entries.len() <= m.entries.len());
    assert(m2.stats.evictions == m.stats.evictions);
    assert(n <= m2.entries.len());
    assert(m3.limits == m.limits);
}


proof fn lemma_evict_keeps_lease_absent(m: EngineModel, incoming: usize, fuel: nat, ns: Seq<char>, key: Seq<u8>)
    requires
        lease_index(m.leases, ns, key) == -1,
    ensures
        lease_index(evict(m, incoming, fuel).1.leases, ns, key) == -1,
    decreases fuel,
{
    if !(fits(m, incoming) || m.entries.len() == 0 || fuel == 0) {
        let i = crate::engine::least_recent(m.entries, crate::engine::lru_sample(m));
        crate::engine::lemma_least_recent_range(m.entries, crate::engine::lru_sample(m));
        let e = m.entries[i];
        lemma_without_lease_keeps_absent(m.leases, ns, key, e.namespace, e.key);
        let m1 = remove_at(m, i);
        let m2 = EngineModel {
            stats: EngineStats { evictions: sat_add_u64(m1.stats.evictions as int, 1), ..m1.stats },
            ..m1
        };
        lemma_evict_keeps_lease_absent(m2, incoming, (fuel - 1) as nat, ns, key);
    }
}

proof fn lemma_put_keeps_lease_absent(m: EngineModel, c: PutModel, now: u64, ns: Seq<char>, key: Seq<u8>)
    requires
        lease_index(m.leases, ns, key) == -1,
    ensures
        lease_index(put_at(m, c, now).1.leases, ns, key) == -1,
{
    let mem = entry_memory(c);
    let m1 = remove_entry(m, c.namespace, c.key).1;
    let i = entry_index(m.entries, c.namespace, c.key);
    lemma_find_first(m.entries, is_entry(c.namespace, c.key), m.entries.len() as int);
    if i >= 0 {
        let e = m.entries[i];
        lemma_without_lease_keeps_absent(m.leases, ns, key, e.namespace, e.key);
    }
    law_reclaim_keeps_leases(m1, now, usize::MAX as nat);
    let m2 = if !fits(m1, mem) {
        reclaim(m1, now, usize::MAX as nat).1
    } else {
        m1
    };
    lemma_evict_keeps_lease_absent(m2, mem, m2.entries.len(), ns, key);
}

/// A completed lease is spent: a second completion on the id, with the same
/// token or any other, at any time, is refused as an invalid token.
pub proof fn law_completed_lease_is_spent(
    m: EngineModel,
    c: CompleteLeaseModel,
    now: u64,
    c2: CompleteLeaseModel,
    later: u64,
)
    requires
        engine_wf(m),
        complete_lease_at(m, c, now).0 is Ok,
        c2.put.namespace == c.put.namespace,
        c2.put.key == c.put.key,
    ensures
        complete_lease_at(complete_lease_at(m, c, now).1, c2, later).0 == Err::<PutOutcome, CompleteLeaseError>(
            CompleteLeaseError::InvalidLeaseToken,
        ),
{
    let ns = c.put.namespace;
    let key = c.put.key;
    lemma_without_lease_absent(m.leases, ns, key);
    let m1 = EngineModel { leases: without_lease(m.leases, ns, key), ..m };
    lemma_put_keeps_lease_absent(m1, c.put, now, ns, key);
}


/// A read of an id that no entry has is a miss and changes nothing, whatever
/// other namespaces hold under the same key.
pub proof fn law_get_absent_is_miss(m: EngineModel, ns: Seq<char>, key: Seq<u8>, now: u64, update_access: bool)
    requires
        forall|j: int|
            0 <= j < m.entries.len() ==> !((#[trigger] m.entries[j]).namespace == ns && m.entries[j].key
                == key),
    ensures
        get_at(m, ns, key, now, update_access) == (GetModel::Miss, m),
{
    lemma_find_first(m.entries, is_entry(ns, key), m.entries.len() as int);
}


/// A value written at `now` and asked for with a lease request at `later`,
/// no lease having been recorded on its id: while fresh it is served; in
/// its stale window the caller gets the lease together with the stale
/// value to serve meanwhile; once expired the caller gets the lease and no
/// value.
pub proof fn law_put_then_lease_start_later(m: EngineModel, c: PutModel, now: u64, later: u64, ttl: u64)
    requires
        engine_wf(m),
        put_at(m, c, now).0 is Ok,
        lease_index(m.leases, c.namespace, c.key) == -1,
    ensures
        ({
            let m4 = put_at(m, c, now).1;
            let o = start_lease_at(m4, c.namespace, c.key, ttl, later).0;
            match c.ttl {
                None => o == StartLeaseModel::Hit(c.value),
                Some(t) => {
                    let x = sat_add_u64(now as int, t.milliseconds as int);
                    if later <= x {
                        o == StartLeaseModel::Hit(c.value)
                    } else {
                        match c.stale_ttl {
                            Some(st) if later <= sat_add_u64(x as int, st.milliseconds as int) => (o matches StartLeaseModel::Granted { stale_value, .. } && stale_value == Some(c.value)),
                            _ => (o matches StartLeaseModel::Granted { stale_value, .. } && stale_value is None),
                        }
                    }
                },
            }
        }),
{
    lemma_put_stores_last(m, c, now);
    lemma_put_keeps_lease_absent(m, c, now, c.namespace, c.key);
}

/// A completed lease writes as a write would: the value written at `now` is
/// read at `later` as `law_put_then_get_later` says, by the completion's
/// own time to live and stale window.
pub proof fn law_complete_then_get_later(
    m: EngineModel,
    c: CompleteLeaseModel,
    now: u64,
    later: u64,
    update_access: bool,
)
    requires
        engine_wf(m),
        complete_lease_at(m, c, now).0 is Ok,
    ensures
        ({
            let m4 = complete_lease_at(m, c, now).1;
            let r = get_at(m4, c.put.namespace, c.put.key, later, update_access).0;
            match c.put.ttl {
                None => r == GetModel::Hit(c.put.value),
                Some(t) => {
                    let x = sat_add_u64(now as int, t.milliseconds as int);
                    if later <= x {
                        r == GetModel::Hit(c.put.value)
                    } else {
                        match c.put.stale_ttl {
                            Some(st) if later <= sat_add_u64(x as int, st.milliseconds as int) => r
                                == GetModel::Stale(c.put.value),
                            _ => r == GetModel::Miss,
                        }
                    }
                },
            }
        }),
{
    let ns = c.put.namespace;
    let key = c.put.key;
    let m1 = EngineModel { leases: without_lease(m.leases, ns, key), ..m };
    lemma_leases_unique_without(m.leases, ns, key);
    assert(engine_wf(m1));
    law_put_then_get_later(m1, c.put, now, later, update_access);
}

/// A delete reports whether it removed something: after a successful write
/// of an id, deleting it answers `true`; deleting an id that no entry has
/// answers `false`, and a second delete of an id always answers `false`.
pub proof fn law_delete_reports_removal(m: EngineModel, c: PutModel, now: u64, ns: Seq<char>, key: Seq<u8>)
    requires
        engine_wf(m),
    ensures
        put_at(m, c, now).0 is Ok ==> delete(put_at(m, c, now).1, c.namespace, c.key).0,
        (forall|j: int| 0 <= j < m.entries.len() ==> !((#[trigger] m.entries[j]).namespace == ns
            && m.entries[j].key == key)) ==> !delete(m, ns, key).0,
        !delete(delete(m, ns, key).1, ns, key).0,
{
    if put_at(m, c, now).0 is Ok {
        lemma_put_stores_last(m, c, now);
        let m4 = put_at(m, c, now).1;
        let m5 = EngineModel { leases: without_lease(m4.leases, c.namespace, c.key), ..m4 };
        assert(m5.entries == m4.entries);
    }
    lemma_find_first(m.entries, is_entry(ns, key), m.entries.len() as int);
    law_delete_idempotent(m, ns, key);
}

} // verus!
