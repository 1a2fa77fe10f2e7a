//! The tag directory covers the shards: every shard that holds an entry of
//! a namespace carrying a tag is routed for that tag, whatever operations
//! ran, so invalidating a tag reaches every entry that carries it.

use vstd::prelude::*;
use crate::engine::{
    complete_lease_at, create_lease, delete, evict, get_at, has_tag, invalidate, put_at, reclaim,
    expire_at, remove_at, remove_entry, shard_has_tag, start_lease_at, touch, CompleteLeaseModel, EngineModel, EntryModel, PutModel,
};
use crate::seqs::{find_first, lemma_find_first, lemma_find_first_at};
use crate::sharded::{
    is_route, is_shard, route_all, route_index, route_to, shard_of, sharded_complete_lease_at,
    invalidate_on, reclaim_shards, sharded_batch_get_at, sharded_delete, sharded_get_at,
    sharded_invalidate, sharded_put_at, sharded_start_lease_at, stale_tags, unroute,
    unroute_all, update_routes, without_shard, RouteModel, ShardedModel,
};

verus! {

/// Whether two entries have the same namespace and the same tags.
pub open spec fn same_labels(a: EntryModel, b: EntryModel) -> bool {
    a.namespace == b.namespace && a.tags == b.tags
}

/// Whether some entry of `m1` has the namespace and the tags of `e`.
pub open spec fn labelled_in(m1: EngineModel, e: EntryModel) -> bool {
    exists|i: int| 0 <= i < m1.entries.len() && #[trigger] same_labels(m1.entries[i], e)
}

/// Every entry of `m2` has the namespace and the tags of some entry of
/// `m1`: no tag of a namespace is held in `m2` that was not held in `m1`.
pub open spec fn tags_from(m2: EngineModel, m1: EngineModel) -> bool {
    forall|j: int| 0 <= j < m2.entries.len() ==> labelled_in(m1, #[trigger] m2.entries[j])
}

/// Whether an entry of the namespace carries the tag, as an existence.
pub proof fn lemma_has_tag(m: EngineModel, ns: Seq<char>, tag: Seq<char>)
    ensures
        shard_has_tag(m, ns, tag) <==> exists|j: int|
            0 <= j < m.entries.len() && #[trigger] has_tag(ns, tag)(m.entries[j]),
{
    lemma_find_first(m.entries, has_tag(ns, tag), m.entries.len() as int);
}

/// A tag held after is held before.
pub proof fn lemma_tags_from_held(m2: EngineModel, m1: EngineModel, ns: Seq<char>, tag: Seq<char>)
    requires
        tags_from(m2, m1),
        shard_has_tag(m2, ns, tag),
    ensures
        shard_has_tag(m1, ns, tag),
{
    lemma_has_tag(m2, ns, tag);
    lemma_has_tag(m1, ns, tag);
    let j = choose|j: int| 0 <= j < m2.entries.len() && #[trigger] has_tag(ns, tag)(m2.entries[j]);
    assert(labelled_in(m1, m2.entries[j]));
    let i = choose|i: int| 0 <= i < m1.entries.len() && #[trigger] same_labels(m1.entries[i], m2.entries[j]);
    assert(has_tag(ns, tag)(m1.entries[i]));
}

proof fn lemma_tags_from_same(m2: EngineModel, m1: EngineModel)
    requires
        m2.entries == m1.entries,
    ensures
        tags_from(m2, m1),
{
    assert forall|j: int| 0 <= j < m2.entries.len() implies labelled_in(m1, #[trigger] m2.entries[j]) by {
        assert(same_labels(m1.entries[j], m2.entries[j]));
    }
}

proof fn lemma_tags_from_trans(m3: EngineModel, m2: EngineModel, m1: EngineModel)
    requires
        tags_from(m3, m2),
        tags_from(m2, m1),
    ensures
        tags_from(m3, m1),
{
    assert forall|j: int| 0 <= j < m3.entries.len() implies labelled_in(m1, #[trigger] m3.entries[j]) by {
        assert(labelled_in(m2, m3.entries[j]));
        let k = choose|k: int| 0 <= k < m2.entries.len() && #[trigger] same_labels(m2.entries[k], m3.entries[j]);
        assert(labelled_in(m1, m2.entries[k]));
        let i = choose|i: int| 0 <= i < m1.entries.len() && #[trigger] same_labels(m1.entries[i], m2.entries[k]);
        assert(same_labels(m1.entries[i], m3.entries[j]));
    }
}

proof fn lemma_tags_from_remove_at(m: EngineModel, i: int)
    requires
        0 <= i < m.entries.len(),
    ensures
        tags_from(remove_at(m, i), m),
{
    let m2 = remove_at(m, i);
    assert forall|j: int| 0 <= j < m2.entries.len() implies labelled_in(m, #[trigger] m2.entries[j]) by {
        if j < i {
            assert(same_labels(m.entries[j], m2.entries[j]));
        } else {
            assert(same_labels(m.entries[j + 1], m2.entries[j]));
        }
    }
}

proof fn lemma_tags_from_expire_at(m: EngineModel, i: int)
    requires
        0 <= i < m.entries.len(),
    ensures
        tags_from(expire_at(m, i), m),
{
    lemma_tags_from_remove_at(m, i);
    lemma_tags_from_same(expire_at(m, i), remove_at(m, i));
    lemma_tags_from_trans(expire_at(m, i), remove_at(m, i), m);
}

proof fn lemma_tags_from_touch(m: EngineModel, i: int)
    requires
        0 <= i < m.entries.len(),
    ensures
        tags_from(touch(m, i), m),
{
    let m2 = touch(m, i);
    assert forall|j: int| 0 <= j < m2.entries.len() implies labelled_in(m, #[trigger] m2.entries[j]) by {
        assert(same_labels(m.entries[j], m2.entries[j]));
    }
}

/// Every entry of `m2` is labelled as one of `m1`, or has namespace `ns`
/// and tags `tags`.
pub open spec fn tags_from_or(m2: EngineModel, m1: EngineModel, ns: Seq<char>, tags: Seq<Seq<char>>) -> bool {
    forall|j: int|
        0 <= j < m2.entries.len() ==> labelled_in(m1, #[trigger] m2.entries[j]) || (
        m2.entries[j].namespace == ns && m2.entries[j].tags == tags)
}

/// A tag held after is held before or is one of `tags` in `ns`.
pub proof fn lemma_tags_from_or_held(
    m2: EngineModel,
    m1: EngineModel,
    ns: Seq<char>,
    tags: Seq<Seq<char>>,
    ns2: Seq<char>,
    tag: Seq<char>,
)
    requires
        tags_from_or(m2, m1, ns, tags),
        shard_has_tag(m2, ns2, tag),
    ensures
        shard_has_tag(m1, ns2, tag) || (ns2 == ns && tags.contains(tag)),
{
    lemma_has_tag(m2, ns2, tag);
    lemma_has_tag(m1, ns2, tag);
    let j = choose|j: int| 0 <= j < m2.entries.len() && #[trigger] has_tag(ns2, tag)(m2.entries[j]);
    if labelled_in(m1, m2.entries[j]) {
        let i = choose|i: int| 0 <= i < m1.entries.len() && #[trigger] same_labels(m1.entries[i], m2.entries[j]);
        assert(has_tag(ns2, tag)(m1.entries[i]));
    }
}

proof fn lemma_tags_from_remove_entry(m: EngineModel, ns: Seq<char>, key: Seq<u8>)
    ensures
        tags_from(remove_entry(m, ns, key).1, m),
{
    let i = crate::engine::entry_index(m.entries, ns, key);
    lemma_find_first(m.entries, crate::engine::is_entry(ns, key), m.entries.len() as int);
    if i >= 0 {
        lemma_tags_from_remove_at(m, i);
    } else {
        lemma_tags_from_same(m, m);
    }
}

proof fn lemma_tags_from_reclaim(m: EngineModel, now: u64, budget: nat)
    ensures
        tags_from(reclaim(m, now, budget).1, m),
    decreases budget,
{
    if budget == 0 {
        lemma_tags_from_same(m, m);
    } else {
        let i = crate::engine::first_expired(m.entries, now, m.entries.len() as int);
        if i < 0 {
            lemma_tags_from_same(m, m);
        } else {
            crate::engine::lemma_first_expired_range(m.entries, now, m.entries.len() as int);
            let m1 = expire_at(m, i);
            let m2 = EngineModel {
                stats: crate::engine::EngineStats {
                    expirations: crate::engine::sat_add_u64(m1.stats.expirations as int, 1),
                    ..m1.stats
                },
                ..m1
            };
            lemma_tags_from_expire_at(m, i);
            lemma_tags_from_same(m2, m1);
            lemma_tags_from_reclaim(m2, now, (budget - 1) as nat);
            lemma_tags_from_trans(reclaim(m2, now, (budget - 1) as nat).1, m2, m1);
            lemma_tags_from_trans(reclaim(m2, now, (budget - 1) as nat).1, m1, m);
        }
    }
}

proof fn lemma_tags_from_evict(m: EngineModel, incoming: usize, fuel: nat)
    ensures
        tags_from(evict(m, incoming, fuel).1, m),
    decreases fuel,
{
    if crate::engine::fits(m, incoming) || m.entries.len() == 0 || fuel == 0 {
        lemma_tags_from_same(m, m);
    } else {
        let i = crate::engine::least_recent(m.entries, crate::engine::lru_sample(m));
        crate::engine::lemma_least_recent_range(m.entries, crate::engine::lru_sample(m));
        let m1 = remove_at(m, i);
        let m2 = EngineModel {
            stats: crate::engine::EngineStats {
                evictions: crate::engine::sat_add_u64(m1.stats.evictions as int, 1),
                ..m1.stats
            },
            ..m1
        };
        lemma_tags_from_remove_at(m, i);
        lemma_tags_from_same(m2, m1);
        lemma_tags_from_evict(m2, incoming, (fuel - 1) as nat);
        lemma_tags_from_trans(evict(m2, incoming, (fuel - 1) as nat).1, m2, m1);
        lemma_tags_from_trans(evict(m2, incoming, (fuel - 1) as nat).1, m1, m);
    }
}

/// A write keeps the labels it found, and adds only its own entry, and
/// only when it succeeds.
pub proof fn lemma_put_labels(m: EngineModel, c: PutModel, now: u64)
    ensures
        tags_from_or(put_at(m, c, now).1, m, c.namespace, c.tags),
        put_at(m, c, now).0 is Err ==> tags_from(put_at(m, c, now).1, m),
{
    let mem = crate::engine::entry_memory(c);
    if c.value.len() > m.limits.max_value_bytes || mem > m.limits.max_memory_bytes {
        lemma_tags_from_same(m, m);
    } else {
        let m1 = remove_entry(m, c.namespace, c.key).1;
        lemma_tags_from_remove_entry(m, c.namespace, c.key);
        let m2 = if !crate::engine::fits(m1, mem) {
            reclaim(m1, now, usize::MAX as nat).1
        } else {
            m1
        };
        if !crate::engine::fits(m1, mem) {
            lemma_tags_from_reclaim(m1, now, usize::MAX as nat);
            lemma_tags_from_trans(m2, m1, m);
        }
        let m3 = evict(m2, mem, m2.entries.len()).1;
        lemma_tags_from_evict(m2, mem, m2.entries.len());
        lemma_tags_from_trans(m3, m2, m);
        let out = put_at(m, c, now).1;
        if crate::engine::fits(m3, mem) {
            assert forall|j: int| 0 <= j < out.entries.len() implies labelled_in(
                m,
                #[trigger] out.entries[j],
            ) || (out.entries[j].namespace == c.namespace && out.entries[j].tags == c.tags) by {
                if j < m3.entries.len() {
                    assert(out.entries[j] == m3.entries[j]);
                }
            }
        }
    }
}

/// A lease completion keeps the labels it found, and adds only the written
/// entry, and only when it succeeds.
pub proof fn lemma_complete_labels(m: EngineModel, c: crate::engine::CompleteLeaseModel, now: u64)
    ensures
        tags_from_or(complete_lease_at(m, c, now).1, m, c.put.namespace, c.put.tags),
        complete_lease_at(m, c, now).0 is Err ==> tags_from(complete_lease_at(m, c, now).1, m),
{
    let ns = c.put.namespace;
    let key = c.put.key;
    match crate::engine::active_lease(m, ns, key, now) {
        None => {
            lemma_tags_from_same(complete_lease_at(m, c, now).1, m);
        },
        Some(l) => {
            if l.token != c.token {
                lemma_tags_from_same(m, m);
            } else {
                let m1 = EngineModel { leases: crate::engine::without_lease(m.leases, ns, key), ..m };
                lemma_put_labels(m1, c.put, now);
                lemma_tags_from_same(m1, m);
                let out = put_at(m1, c.put, now).1;
                assert forall|j: int| 0 <= j < out.entries.len() implies labelled_in(
                    m,
                    #[trigger] out.entries[j],
                ) || (out.entries[j].namespace == ns && out.entries[j].tags == c.put.tags) by {
                    if labelled_in(m1, out.entries[j]) {
                        let i = choose|i: int| 0 <= i < m1.entries.len() && #[trigger] same_labels(m1.entries[i], out.entries[j]);
                        assert(same_labels(m.entries[i], out.entries[j]));
                    }
                }
                if put_at(m1, c.put, now).0 is Err {
                    lemma_tags_from_trans(out, m1, m);
                }
            }
        },
    }
}

/// A read only keeps or drops entries.
pub proof fn lemma_get_labels(m: EngineModel, ns: Seq<char>, key: Seq<u8>, now: u64, update_access: bool)
    ensures
        tags_from(get_at(m, ns, key, now, update_access).1, m),
{
    let i = crate::engine::entry_index(m.entries, ns, key);
    lemma_find_first(m.entries, crate::engine::is_entry(ns, key), m.entries.len() as int);
    if i < 0 {
        lemma_tags_from_same(m, m);
    } else {
        lemma_tags_from_touch(m, i);
        lemma_tags_from_expire_at(m, i);
        lemma_tags_from_same(m, m);
    }
}

/// A lease request only keeps or drops entries.
pub proof fn lemma_start_lease_labels(m: EngineModel, ns: Seq<char>, key: Seq<u8>, ttl: u64, now: u64)
    ensures
        tags_from(start_lease_at(m, ns, key, ttl, now).1, m),
{
    let i = crate::engine::entry_index(m.entries, ns, key);
    lemma_find_first(m.entries, crate::engine::is_entry(ns, key), m.entries.len() as int);
    lemma_tags_from_same(m, m);
    lemma_tags_from_same(create_lease(m, ns, key, ttl, now).1, m);
    if i >= 0 {
        lemma_tags_from_touch(m, i);
        lemma_tags_from_remove_at(m, i);
        let t = touch(m, i);
        lemma_tags_from_same(create_lease(t, ns, key, ttl, now).1, t);
        lemma_tags_from_trans(create_lease(t, ns, key, ttl, now).1, t, m);
        let r = remove_at(m, i);
        lemma_tags_from_same(create_lease(r, ns, key, ttl, now).1, r);
        lemma_tags_from_trans(create_lease(r, ns, key, ttl, now).1, r, m);
    }
}

/// A delete only drops entries.
pub proof fn lemma_delete_labels(m: EngineModel, ns: Seq<char>, key: Seq<u8>)
    ensures
        tags_from(delete(m, ns, key).1, m),
{
    let m1 = EngineModel { leases: crate::engine::without_lease(m.leases, ns, key), ..m };
    lemma_tags_from_remove_entry(m1, ns, key);
    lemma_tags_from_same(m1, m);
    lemma_tags_from_trans(delete(m, ns, key).1, m1, m);
}

/// Invalidation only drops entries, and leaves none of the namespace with
/// the tag.
pub proof fn lemma_invalidate_labels(m: EngineModel, ns: Seq<char>, tag: Seq<char>)
    ensures
        tags_from(invalidate(m, ns, tag, m.entries.len()).1, m),
        !shard_has_tag(invalidate(m, ns, tag, m.entries.len()).1, ns, tag),
{
    lemma_invalidate_fuel(m, ns, tag, m.entries.len());
}

proof fn lemma_invalidate_fuel(m: EngineModel, ns: Seq<char>, tag: Seq<char>, fuel: nat)
    requires
        m.entries.len() <= fuel,
    ensures
        tags_from(invalidate(m, ns, tag, fuel).1, m),
        !shard_has_tag(invalidate(m, ns, tag, fuel).1, ns, tag),
    decreases fuel,
{
    let i = find_first(m.entries, has_tag(ns, tag), m.entries.len() as int);
    lemma_find_first(m.entries, has_tag(ns, tag), m.entries.len() as int);
    if fuel == 0 || i < 0 {
        lemma_tags_from_same(m, m);
        lemma_has_tag(m, ns, tag);
    } else {
        let m1 = remove_at(m, i);
        lemma_tags_from_remove_at(m, i);
        lemma_invalidate_fuel(m1, ns, tag, (fuel - 1) as nat);
        lemma_tags_from_trans(invalidate(m1, ns, tag, (fuel - 1) as nat).1, m1, m);
    }
}

proof fn lemma_find_first_remove<A>(s: Seq<A>, p: spec_fn(A) -> bool, i: int)
    requires
        0 <= i < s.len(),
        !p(s[i]),
        find_first(s, p, s.len() as int) >= 0,
    ensures
        ({
            let k = find_first(s, p, s.len() as int);
            find_first(s.remove(i), p, s.len() - 1) == if k < i {
                k
            } else {
                k - 1
            }
        }),
{
    let k = find_first(s, p, s.len() as int);
    lemma_find_first(s, p, s.len() as int);
    let r = s.remove(i);
    let k2 = if k < i {
        k
    } else {
        k - 1
    };
    assert(r[k2] == s[k]);
    assert forall|j: int| 0 <= j < k2 implies !p(#[trigger] r[j]) by {
        if j < i {
            assert(r[j] == s[j]);
        } else {
            assert(r[j] == s[j + 1]);
        }
    }
    lemma_find_first_at(r, p, k2);
}

proof fn lemma_find_first_update<A>(s: Seq<A>, p: spec_fn(A) -> bool, i: int, x: A)
    requires
        0 <= i < s.len(),
        p(s[i]) == p(x),
        find_first(s, p, s.len() as int) >= 0,
    ensures
        find_first(s.update(i, x), p, s.len() as int) == find_first(s, p, s.len() as int),
{
    let k = find_first(s, p, s.len() as int);
    lemma_find_first(s, p, s.len() as int);
    let r = s.update(i, x);
    assert forall|j: int| 0 <= j < k implies !p(#[trigger] r[j]) by {
        if j != i {
            assert(r[j] == s[j]);
        }
    }
    if k != i {
        assert(r[k] == s[k]);
    }
    lemma_find_first_at(r, p, k);
}

proof fn lemma_find_first_push<A>(s: Seq<A>, p: spec_fn(A) -> bool, x: A)
    ensures
        find_first(s, p, s.len() as int) >= 0 ==> find_first(s.push(x), p, s.len() + 1int) == find_first(
            s,
            p,
            s.len() as int,
        ),
        find_first(s, p, s.len() as int) < 0 && p(x) ==> find_first(s.push(x), p, s.len() + 1int)
            == s.len(),
{
    let k = find_first(s, p, s.len() as int);
    lemma_find_first(s, p, s.len() as int);
    let r = s.push(x);
    if k >= 0 {
        assert forall|j: int| 0 <= j < k implies !p(#[trigger] r[j]) by {
            assert(r[j] == s[j]);
        }
        assert(r[k] == s[k]);
        lemma_find_first_at(r, p, k);
    } else if p(x) {
        assert forall|j: int| 0 <= j < s.len() implies !p(#[trigger] r[j]) by {
            assert(r[j] == s[j]);
        }
        lemma_find_first_at(r, p, s.len() as int);
    }
}

/// Whether the directory routes the tag of the namespace to shard `s`.
pub open spec fn routed(rs: Seq<RouteModel>, ns: Seq<char>, tag: Seq<char>, s: usize) -> bool {
    let i = route_index(rs, ns, tag);
    i >= 0 && rs[i].shards.contains(s)
}

proof fn lemma_route_index_range(rs: Seq<RouteModel>, ns: Seq<char>, tag: Seq<char>)
    ensures
        -1 <= route_index(rs, ns, tag) < rs.len(),
        route_index(rs, ns, tag) >= 0 ==> rs[route_index(rs, ns, tag)].namespace == ns
            && rs[route_index(rs, ns, tag)].tag == tag,
{
    lemma_find_first(rs, is_route(ns, tag), rs.len() as int);
}

/// Taking shard `s` off the route of one tag keeps every other routing.
proof fn lemma_unroute_keeps(
    rs: Seq<RouteModel>,
    s: usize,
    ns: Seq<char>,
    tag: Seq<char>,
    ns2: Seq<char>,
    tag2: Seq<char>,
    s2: usize,
)
    requires
        routed(rs, ns2, tag2, s2),
        !(ns2 == ns && tag2 == tag && s2 == s),
    ensures
        routed(unroute(rs, s, ns, tag), ns2, tag2, s2),
{
    let i = route_index(rs, ns, tag);
    let k = route_index(rs, ns2, tag2);
    lemma_route_index_range(rs, ns, tag);
    lemma_route_index_range(rs, ns2, tag2);
    if i >= 0 {
        let ss = rs[i].shards;
        let left = without_shard(ss, s);
        lemma_find_first(ss, is_shard(s), ss.len() as int);
        let f = find_first(ss, is_shard(s), ss.len() as int);
        if ns2 == ns && tag2 == tag {
            assert(k == i);
            let w = choose|w: int| 0 <= w < ss.len() && ss[w] == s2;
            let w2 = if f >= 0 && w > f {
                w - 1
            } else {
                w
            };
            if f >= 0 {
                assert(left[w2] == s2);
            } else {
                assert(left[w2] == s2);
            }
            let r = RouteModel { shards: left, ..rs[i] };
            lemma_find_first_update(rs, is_route(ns, tag), i, r);
            assert(rs.update(i, r)[i].shards[w2] == s2);
        } else {
            if left.len() == 0 {
                lemma_find_first_remove(rs, is_route(ns2, tag2), i);
                let k2 = if k < i {
                    k
                } else {
                    k - 1
                };
                assert(rs.remove(i)[k2] == rs[k]);
            } else {
                let r = RouteModel { shards: left, ..rs[i] };
                lemma_find_first_update(rs, is_route(ns2, tag2), i, r);
                if k != i {
                    assert(rs.update(i, r)[k] == rs[k]);
                }
            }
        }
    }
}

/// Routing shard `s` for one tag keeps every routing and adds that one.
proof fn lemma_route_to_keeps(
    rs: Seq<RouteModel>,
    s: usize,
    ns: Seq<char>,
    tag: Seq<char>,
    ns2: Seq<char>,
    tag2: Seq<char>,
    s2: usize,
)
    ensures
        routed(rs, ns2, tag2, s2) ==> routed(route_to(rs, s, ns, tag), ns2, tag2, s2),
        routed(route_to(rs, s, ns, tag), ns, tag, s),
{
    let i = route_index(rs, ns, tag);
    lemma_route_index_range(rs, ns, tag);
    lemma_route_index_range(rs, ns2, tag2);
    let k = route_index(rs, ns2, tag2);
    if i < 0 {
        let r = RouteModel { namespace: ns, tag, shards: seq![s] };
        lemma_find_first_push(rs, is_route(ns2, tag2), r);
        lemma_find_first_push(rs, is_route(ns, tag), r);
        assert(rs.push(r)[rs.len() as int].shards[0] == s);
        if k >= 0 {
            assert(rs.push(r)[k] == rs[k]);
        }
    } else {
        let ss = rs[i].shards;
        lemma_find_first(ss, is_shard(s), ss.len() as int);
        let f = find_first(ss, is_shard(s), ss.len() as int);
        if f >= 0 {
            assert(ss[f] == s);
        } else {
            let r = RouteModel { shards: ss.push(s), ..rs[i] };
            lemma_find_first_update(rs, is_route(ns, tag), i, r);
            assert(rs.update(i, r)[i].shards[ss.len() as int] == s);
            if routed(rs, ns2, tag2, s2) {
                lemma_find_first_update(rs, is_route(ns2, tag2), i, r);
                if k == i {
                    let w = choose|w: int| 0 <= w < ss.len() && ss[w] == s2;
                    assert(rs.update(i, r)[i].shards[w] == s2);
                } else {
                    assert(rs.update(i, r)[k] == rs[k]);
                }
            }
        }
    }
}

proof fn lemma_unroute_all_keeps(
    rs: Seq<RouteModel>,
    s: usize,
    ns: Seq<char>,
    tags: Seq<Seq<char>>,
    ns2: Seq<char>,
    tag2: Seq<char>,
    s2: usize,
)
    requires
        routed(rs, ns2, tag2, s2),
        !(ns2 == ns && s2 == s && tags.contains(tag2)),
    ensures
        routed(unroute_all(rs, s, ns, tags), ns2, tag2, s2),
    decreases tags.len(),
{
    if tags.len() > 0 {
        if tags.drop_last().contains(tag2) {
            let w = choose|w: int| 0 <= w < tags.drop_last().len() && tags.drop_last()[w] == tag2;
            assert(tags[w] == tag2);
        }
        lemma_unroute_all_keeps(rs, s, ns, tags.drop_last(), ns2, tag2, s2);
        assert(tags[tags.len() - 1] == tags.last());
        lemma_unroute_keeps(unroute_all(rs, s, ns, tags.drop_last()), s, ns, tags.last(), ns2, tag2, s2);
    }
}

proof fn lemma_route_all_keeps(
    rs: Seq<RouteModel>,
    s: usize,
    ns: Seq<char>,
    tags: Seq<Seq<char>>,
    ns2: Seq<char>,
    tag2: Seq<char>,
    s2: usize,
)
    ensures
        routed(rs, ns2, tag2, s2) ==> routed(route_all(rs, s, ns, tags), ns2, tag2, s2),
        ns2 == ns && s2 == s && tags.contains(tag2) ==> routed(route_all(rs, s, ns, tags), ns2, tag2, s2),
    decreases tags.len(),
{
    if tags.len() > 0 {
        let prev = route_all(rs, s, ns, tags.drop_last());
        lemma_route_all_keeps(rs, s, ns, tags.drop_last(), ns2, tag2, s2);
        lemma_route_to_keeps(prev, s, ns, tags.last(), ns2, tag2, s2);
        if ns2 == ns && s2 == s && tags.contains(tag2) {
            let w = choose|w: int| 0 <= w < tags.len() && tags[w] == tag2;
            if w < tags.len() - 1 {
                assert(tags.drop_last()[w] == tag2);
            } else {
                assert(tags.last() == tag2);
            }
        }
    }
}

/// A stale tag is one that no entry of the namespace carries.
proof fn lemma_stale_not_held(tags: Seq<Seq<char>>, m: EngineModel, ns: Seq<char>, x: Seq<char>)
    requires
        stale_tags(tags, m, ns).contains(x),
    ensures
        !shard_has_tag(m, ns, x),
    decreases tags.len(),
{
    if tags.len() > 0 {
        let rest = stale_tags(tags.drop_last(), m, ns);
        if rest.contains(x) {
            lemma_stale_not_held(tags.drop_last(), m, ns, x);
        } else if !shard_has_tag(m, ns, tags.last()) {
            let w = choose|w: int| 0 <= w < rest.push(tags.last()).len() && rest.push(tags.last())[w] == x;
            if w < rest.len() {
                assert(rest[w] == x);
            }
        }
    }
}

/// Every shard that holds an entry of a namespace carrying a tag is routed
/// for that tag.
pub open spec fn routes_cover(m: ShardedModel) -> bool {
    forall|k: int, ns: Seq<char>, tag: Seq<char>|
        0 <= k < m.shards.len() && #[trigger] shard_has_tag(m.shards[k], ns, tag) ==> routed(
            m.routes,
            ns,
            tag,
            k as usize,
        )
}

/// Changing one shard so that it keeps or drops entries, the directory
/// unchanged, keeps the directory covering.
proof fn lemma_cover_shard_shrinks(m: ShardedModel, s: int, m1: EngineModel)
    requires
        routes_cover(m),
        0 <= s < m.shards.len(),
        tags_from(m1, m.shards[s]),
    ensures
        routes_cover(ShardedModel { shards: m.shards.update(s, m1), ..m }),
{
    let out = ShardedModel { shards: m.shards.update(s, m1), ..m };
    assert forall|k: int, ns: Seq<char>, tag: Seq<char>|
        0 <= k < out.shards.len() && #[trigger] shard_has_tag(out.shards[k], ns, tag) implies routed(
        out.routes,
        ns,
        tag,
        k as usize,
    ) by {
        if k == s {
            lemma_tags_from_held(m1, m.shards[s], ns, tag);
        }
        assert(shard_has_tag(m.shards[k], ns, tag));
    }
}

proof fn lemma_shard_of_range(ns: Seq<char>, key: Seq<u8>, n: nat)
    requires
        n > 0,
    ensures
        0 <= shard_of(ns, key, n) < n,
{
    let x = (crate::sharded::default_hash(ns, key) as usize) as int;
    assert(0 <= x % (n as int) < n) by (nonlinear_arith)
        requires
            n > 0,
            x >= 0,
    ;
}

/// A shard changed by a write or a lease completion, given how its labels
/// changed, with the directory updated as the sharded engine does it,
/// keeps the directory covering.
proof fn lemma_cover_after_write(
    m: ShardedModel,
    s: int,
    m1: EngineModel,
    ns: Seq<char>,
    tags: Seq<Seq<char>>,
    ok: bool,
    old_tags: Seq<Seq<char>>,
)
    requires
        routes_cover(m),
        0 <= s < m.shards.len() <= usize::MAX,
        tags_from_or(m1, m.shards[s], ns, tags),
        !ok ==> tags_from(m1, m.shards[s]),
    ensures
        routes_cover(
            ShardedModel {
                shards: m.shards.update(s, m1),
                routes: update_routes(
                    m.routes,
                    s as usize,
                    ns,
                    if ok {
                        tags
                    } else {
                        Seq::empty()
                    },
                    stale_tags(old_tags, m1, ns),
                ),
                ..m
            },
        ),
{
    let add = if ok {
        tags
    } else {
        Seq::<Seq<char>>::empty()
    };
    let stale = stale_tags(old_tags, m1, ns);
    let mid = unroute_all(m.routes, s as usize, ns, stale);
    let out = ShardedModel {
        shards: m.shards.update(s, m1),
        routes: update_routes(m.routes, s as usize, ns, add, stale),
        ..m
    };
    assert forall|k: int, ns2: Seq<char>, tag: Seq<char>|
        0 <= k < out.shards.len() && #[trigger] shard_has_tag(out.shards[k], ns2, tag) implies routed(
        out.routes,
        ns2,
        tag,
        k as usize,
    ) by {
        if k == s {
            lemma_tags_from_or_held(m1, m.shards[s], ns, tags, ns2, tag);
            if !ok {
                lemma_tags_from_held(m1, m.shards[s], ns2, tag);
            }
            if shard_has_tag(m.shards[s], ns2, tag) {
                if ns2 == ns && stale.contains(tag) {
                    lemma_stale_not_held(old_tags, m1, ns, tag);
                }
                lemma_unroute_all_keeps(m.routes, s as usize, ns, stale, ns2, tag, k as usize);
                lemma_route_all_keeps(mid, s as usize, ns, add, ns2, tag, k as usize);
            } else {
                lemma_route_all_keeps(mid, s as usize, ns, add, ns2, tag, k as usize);
            }
        } else {
            assert(out.shards[k] == m.shards[k]);
            assert(shard_has_tag(m.shards[k], ns2, tag));
            lemma_unroute_all_keeps(m.routes, s as usize, ns, stale, ns2, tag, k as usize);
            lemma_route_all_keeps(mid, s as usize, ns, add, ns2, tag, k as usize);
        }
    }
}

/// A write keeps the tag directory covering the shards.
pub proof fn law_put_keeps_directory(m: ShardedModel, c: PutModel, now: u64)
    requires
        routes_cover(m),
        0 < m.shards.len() <= usize::MAX,
    ensures
        routes_cover(sharded_put_at(m, c, now).1),
{
    let s = shard_of(c.namespace, c.key, m.shards.len());
    lemma_shard_of_range(c.namespace, c.key, m.shards.len());
    lemma_put_labels(m.shards[s], c, now);
    let (r, m1) = put_at(m.shards[s], c, now);
    lemma_cover_after_write(
        m,
        s,
        m1,
        c.namespace,
        c.tags,
        r is Ok,
        crate::engine::entry_tags(m.shards[s], c.namespace, c.key),
    );
}

/// A lease completion keeps the tag directory covering the shards.
pub proof fn law_complete_lease_keeps_directory(m: ShardedModel, c: CompleteLeaseModel, now: u64)
    requires
        routes_cover(m),
        0 < m.shards.len() <= usize::MAX,
    ensures
        routes_cover(sharded_complete_lease_at(m, c, now).1),
{
    let ns = c.put.namespace;
    let s = shard_of(ns, c.put.key, m.shards.len());
    lemma_shard_of_range(ns, c.put.key, m.shards.len());
    lemma_complete_labels(m.shards[s], c, now);
    let (r, m1) = complete_lease_at(m.shards[s], c, now);
    lemma_cover_after_write(
        m,
        s,
        m1,
        ns,
        c.put.tags,
        r is Ok,
        crate::engine::entry_tags(m.shards[s], ns, c.put.key),
    );
}

/// A read keeps the tag directory covering the shards.
pub proof fn law_get_keeps_directory(
    m: ShardedModel,
    ns: Seq<char>,
    key: Seq<u8>,
    now: u64,
    update_access: bool,
)
    requires
        routes_cover(m),
        0 < m.shards.len() <= usize::MAX,
    ensures
        routes_cover(sharded_get_at(m, ns, key, now, update_access).1),
{
    let s = shard_of(ns, key, m.shards.len());
    lemma_shard_of_range(ns, key, m.shards.len());
    lemma_get_labels(m.shards[s], ns, key, now, update_access);
    lemma_cover_shard_shrinks(m, s, get_at(m.shards[s], ns, key, now, update_access).1);
}

/// A lease request keeps the tag directory covering the shards.
pub proof fn law_start_lease_keeps_directory(
    m: ShardedModel,
    ns: Seq<char>,
    key: Seq<u8>,
    ttl: u64,
    now: u64,
)
    requires
        routes_cover(m),
        0 < m.shards.len() <= usize::MAX,
    ensures
        routes_cover(sharded_start_lease_at(m, ns, key, ttl, now).1),
{
    let s = shard_of(ns, key, m.shards.len());
    lemma_shard_of_range(ns, key, m.shards.len());
    lemma_start_lease_labels(m.shards[s], ns, key, ttl, now);
    lemma_cover_shard_shrinks(m, s, start_lease_at(m.shards[s], ns, key, ttl, now).1);
}

/// A delete keeps the tag directory covering the shards.
pub proof fn law_delete_keeps_directory(m: ShardedModel, ns: Seq<char>, key: Seq<u8>)
    requires
        routes_cover(m),
        0 < m.shards.len() <= usize::MAX,
    ensures
        routes_cover(sharded_delete(m, ns, key).1),
{
    let s = shard_of(ns, key, m.shards.len());
    lemma_shard_of_range(ns, key, m.shards.len());
    let old_tags = crate::engine::entry_tags(m.shards[s], ns, key);
    let (removed, m1) = delete(m.shards[s], ns, key);
    lemma_delete_labels(m.shards[s], ns, key);
    let out = sharded_delete(m, ns, key).1;
    let stale = stale_tags(old_tags, m1, ns);
    assert forall|k: int, ns2: Seq<char>, tag: Seq<char>|
        0 <= k < out.shards.len() && #[trigger] shard_has_tag(out.shards[k], ns2, tag) implies routed(
        out.routes,
        ns2,
        tag,
        k as usize,
    ) by {
        if k == s {
            lemma_tags_from_held(m1, m.shards[s], ns2, tag);
        } else {
            assert(out.shards[k] == m.shards[k]);
        }
        assert(shard_has_tag(m.shards[k], ns2, tag));
        if removed {
            if k == s && ns2 == ns && stale.contains(tag) {
                lemma_stale_not_held(old_tags, m1, ns, tag);
            }
            lemma_unroute_all_keeps(m.routes, s as usize, ns, stale, ns2, tag, k as usize);
        }
    }
}

/// Reads of several keys keep the tag directory covering the shards.
pub proof fn law_batch_get_keeps_directory(
    m: ShardedModel,
    ns: Seq<char>,
    keys: Seq<Seq<u8>>,
    times: Seq<u64>,
)
    requires
        routes_cover(m),
        0 < m.shards.len() <= usize::MAX,
    ensures
        routes_cover(sharded_batch_get_at(m, ns, keys, times).1),
        sharded_batch_get_at(m, ns, keys, times).1.shards.len() == m.shards.len(),
    decreases keys.len(),
{
    if keys.len() > 0 {
        law_batch_get_keeps_directory(m, ns, keys.drop_last(), times.drop_last());
        let m1 = sharded_batch_get_at(m, ns, keys.drop_last(), times.drop_last()).1;
        law_get_keeps_directory(m1, ns, keys.last(), times.last(), true);
    }
}

/// Invalidation on a list of shards keeps or drops entries on each shard,
/// and leaves no shard of the list holding the tag.
proof fn lemma_invalidate_on(shards: Seq<EngineModel>, ks: Seq<usize>, ns: Seq<char>, tag: Seq<char>)
    requires
        forall|j: int| 0 <= j < ks.len() ==> #[trigger] ks[j] < shards.len(),
    ensures
        invalidate_on(shards, ks, ns, tag).1.len() == shards.len(),
        forall|k: int|
            0 <= k < shards.len() ==> tags_from(
                #[trigger] invalidate_on(shards, ks, ns, tag).1[k],
                shards[k],
            ),
        forall|j: int|
            0 <= j < ks.len() ==> !shard_has_tag(
                invalidate_on(shards, ks, ns, tag).1[#[trigger] ks[j] as int],
                ns,
                tag,
            ),
    decreases ks.len(),
{
    if ks.len() == 0 {
        assert forall|k: int| 0 <= k < shards.len() implies tags_from(
            #[trigger] invalidate_on(shards, ks, ns, tag).1[k],
            shards[k],
        ) by {
            lemma_tags_from_same(shards[k], shards[k]);
        }
    } else {
        let prefix = ks.drop_last();
        assert forall|j: int| 0 <= j < prefix.len() implies #[trigger] prefix[j] < shards.len() by {
            assert(prefix[j] == ks[j]);
        }
        lemma_invalidate_on(shards, prefix, ns, tag);
        let sh = invalidate_on(shards, prefix, ns, tag).1;
        let k = ks.last() as int;
        assert(ks[ks.len() - 1] < shards.len());
        let m2 = invalidate(sh[k], ns, tag, sh[k].entries.len()).1;
        lemma_invalidate_labels(sh[k], ns, tag);
        let out = invalidate_on(shards, ks, ns, tag).1;
        assert(out == sh.update(k, m2));
        assert forall|q: int| 0 <= q < shards.len() implies tags_from(#[trigger] out[q], shards[q]) by {
            if q == k {
                lemma_tags_from_trans(m2, sh[k], shards[k]);
            } else {
                assert(out[q] == sh[q]);
            }
        }
        assert forall|j: int| 0 <= j < ks.len() implies !shard_has_tag(out[#[trigger] ks[j] as int], ns, tag) by {
            if j < ks.len() - 1 {
                assert(prefix[j] == ks[j]);
                if ks[j] as int != k {
                    assert(out[ks[j] as int] == sh[prefix[j] as int]);
                }
            }
        }
    }
}

/// Invalidating a tag reaches every shard: afterwards no shard holds an
/// entry of the namespace that carries the tag (given a directory that
/// covers the shards, as every operation keeps it), and the directory
/// still covers the shards.
pub proof fn law_invalidate_clears_every_shard(m: ShardedModel, ns: Seq<char>, tag: Seq<char>)
    requires
        routes_cover(m),
        crate::sharded::routes_wf(m.routes, m.shards.len()),
        m.shards.len() <= usize::MAX,
    ensures
        forall|k: int|
            0 <= k < m.shards.len() ==> !shard_has_tag(
                #[trigger] sharded_invalidate(m, ns, tag).1.shards[k],
                ns,
                tag,
            ),
        sharded_invalidate(m, ns, tag).1.shards.len() == m.shards.len(),
        routes_cover(sharded_invalidate(m, ns, tag).1),
{
    let i = route_index(m.routes, ns, tag);
    lemma_route_index_range(m.routes, ns, tag);
    let out = sharded_invalidate(m, ns, tag).1;
    if i < 0 {
        assert forall|k: int| 0 <= k < m.shards.len() implies !shard_has_tag(
            #[trigger] out.shards[k],
            ns,
            tag,
        ) by {
            if shard_has_tag(m.shards[k], ns, tag) {
                assert(routed(m.routes, ns, tag, k as usize));
            }
        }
    } else {
        let ks = m.routes[i].shards;
        assert forall|j: int| 0 <= j < ks.len() implies #[trigger] ks[j] < m.shards.len() by {
            assert(m.routes[i].shards[j] < m.shards.len());
        }
        lemma_invalidate_on(m.shards, ks, ns, tag);
        let sh = invalidate_on(m.shards, ks, ns, tag).1;
        assert(out.shards == sh);
        assert forall|k: int| 0 <= k < m.shards.len() implies !shard_has_tag(
            #[trigger] out.shards[k],
            ns,
            tag,
        ) by {
            if shard_has_tag(sh[k], ns, tag) {
                assert(tags_from(sh[k], m.shards[k]));
                lemma_tags_from_held(sh[k], m.shards[k], ns, tag);
                assert(routed(m.routes, ns, tag, k as usize));
                let w = choose|w: int| 0 <= w < ks.len() && ks[w] == k as usize;
                assert(!shard_has_tag(sh[ks[w] as int], ns, tag));
            }
        }
        assert forall|k: int, ns2: Seq<char>, tag2: Seq<char>|
            0 <= k < out.shards.len() && #[trigger] shard_has_tag(out.shards[k], ns2, tag2)
            implies routed(out.routes, ns2, tag2, k as usize) by {
            assert(tags_from(sh[k], m.shards[k]));
            lemma_tags_from_held(sh[k], m.shards[k], ns2, tag2);
            assert(routed(m.routes, ns2, tag2, k as usize));
            if ns2 == ns && tag2 == tag {
                assert(!shard_has_tag(out.shards[k], ns, tag));
            } else {
                let q = route_index(m.routes, ns2, tag2);
                lemma_route_index_range(m.routes, ns2, tag2);
                lemma_find_first_remove(m.routes, is_route(ns2, tag2), i);
                let q2 = if q < i {
                    q
                } else {
                    q - 1
                };
                assert(m.routes.remove(i)[q2] == m.routes[q]);
            }
        }
    }
}

/// Reclaiming expired entries shard by shard keeps or drops entries on
/// each shard.
proof fn lemma_reclaim_shards(shards: Seq<EngineModel>, budget: nat, times: Seq<u64>, k: nat)
    requires
        k <= shards.len(),
    ensures
        reclaim_shards(shards, budget, times, k).1.len() == shards.len(),
        forall|q: int|
            0 <= q < shards.len() ==> tags_from(
                #[trigger] reclaim_shards(shards, budget, times, k).1[q],
                shards[q],
            ),
    decreases k,
{
    if k == 0 {
        assert forall|q: int| 0 <= q < shards.len() implies tags_from(
            #[trigger] reclaim_shards(shards, budget, times, k).1[q],
            shards[q],
        ) by {
            lemma_tags_from_same(shards[q], shards[q]);
        }
    } else {
        lemma_reclaim_shards(shards, budget, times, (k - 1) as nat);
        let (c, sh) = reclaim_shards(shards, budget, times, (k - 1) as nat);
        let out = reclaim_shards(shards, budget, times, k).1;
        if c < budget {
            let j = k - 1;
            lemma_tags_from_reclaim(sh[j], times[j], (budget - c) as nat);
            assert forall|q: int| 0 <= q < shards.len() implies tags_from(#[trigger] out[q], shards[q]) by {
                if q == j {
                    lemma_tags_from_trans(out[q], sh[q], shards[q]);
                } else {
                    assert(out[q] == sh[q]);
                }
            }
        }
    }
}

/// Reclaiming expired entries keeps the tag directory covering the shards.
pub proof fn law_reclaim_keeps_directory(m: ShardedModel, budget: nat, times: Seq<u64>)
    requires
        routes_cover(m),
    ensures
        routes_cover(
            ShardedModel { shards: reclaim_shards(m.shards, budget, times, m.shards.len()).1, ..m },
        ),
{
    lemma_reclaim_shards(m.shards, budget, times, m.shards.len());
    let sh = reclaim_shards(m.shards, budget, times, m.shards.len()).1;
    let out = ShardedModel { shards: sh, ..m };
    assert forall|k: int, ns2: Seq<char>, tag2: Seq<char>|
        0 <= k < out.shards.len() && #[trigger] shard_has_tag(out.shards[k], ns2, tag2)
        implies routed(out.routes, ns2, tag2, k as usize) by {
        assert(tags_from(sh[k], m.shards[k]));
        lemma_tags_from_held(sh[k], m.shards[k], ns2, tag2);
    }
}

/// A new sharded engine's directory covers its empty shards.
pub proof fn law_new_directory_covers(limits: crate::engine::EngineLimits, n: nat)
    ensures
        routes_cover(crate::sharded::empty_sharded(limits, n)),
{
    let m = crate::sharded::empty_sharded(limits, n);
    assert forall|k: int, ns2: Seq<char>, tag2: Seq<char>|
        0 <= k < m.shards.len() && #[trigger] shard_has_tag(m.shards[k], ns2, tag2)
        implies routed(m.routes, ns2, tag2, k as usize) by {
        lemma_has_tag(m.shards[k], ns2, tag2);
    }
}

} // verus!
