//! An engine split into shards by a hash of each entry's id, with a
//! directory that routes a tag invalidation to the shards that hold (or
//! once held) entries carrying the tag.

use vstd::prelude::*;
use crate::bytes::text_eq;
use crate::engine::{
    copy_strings, delete, entry_tags, get_at, invalidate, put_at, reclaim, shard_has_tag,
    start_lease_at, complete_lease_at, strings_view, keys_view, outcomes_view, empty_engine,
    engine_wf, engine_inv, Clock, CompleteLeaseCommand, CompleteLeaseError, CompleteLeaseModel, Engine,
    EngineLimits, EngineModel, EngineStats, GetModel, GetOutcome, GetOutcomeRef, PutCommand,
    PutError, PutModel, PutOutcome, StartLeaseModel, StartLeaseOutcome, SystemClock,
    DEFAULT_SHARD_COUNT,
};
use crate::seqs::{find_first, lemma_find_first, lemma_find_first_absent, lemma_find_first_at};

verus! {

/// What `DefaultHasher` computes for an id: the namespace hashed, then the
/// key, then finished.
pub uninterp spec fn default_hash(namespace: Seq<char>, key: Seq<u8>) -> u64;

/// `std::collections::hash_map::DefaultHasher::new()` fed `namespace` and
/// then `key` through `Hash::hash`, and `Hasher::finish`ed.
///
/// Trusted: std documents that every `DefaultHasher` made by `new` is the
/// same, so within one build the digest is a function of the id; its value
/// is not stated. It is not the same on every platform (a slice's length is
/// hashed as a `usize`) nor promised across releases of std, which changes
/// only where entries land, never what a request on one id reads.
#[verifier::external_body]
fn id_hash(namespace: &str, key: &[u8]) -> (r: u64)
    ensures
        r == default_hash(namespace@, key@),
{
    let mut hasher = std::collections::hash_map::DefaultHasher::new();
    std::hash::Hash::hash(namespace, &mut hasher);
    std::hash::Hash::hash(key, &mut hasher);
    std::hash::Hasher::finish(&hasher)
}

/// The shard that holds an id among `n` shards.
pub open spec fn shard_of(ns: Seq<char>, key: Seq<u8>, n: nat) -> int {
    (default_hash(ns, key) as usize) as int % (n as int)
}

struct TagRoute {
    namespace: String,
    tag: String,
    shards: Vec<usize>,
}

/// A tag of a namespace and the shards it is routed to.
pub struct RouteModel {
    pub namespace: Seq<char>,
    pub tag: Seq<char>,
    pub shards: Seq<usize>,
}

impl View for TagRoute {
    type V = RouteModel;

    closed spec fn view(&self) -> RouteModel {
        RouteModel { namespace: self.namespace@, tag: self.tag@, shards: self.shards@ }
    }
}

/// The sharded engine's state: the shards, the tag directory and the
/// limits it was made with.
pub struct ShardedModel {
    pub shards: Seq<EngineModel>,
    pub routes: Seq<RouteModel>,
    pub limits: EngineLimits,
}

pub struct ShardedEngine<C: Clock = SystemClock> {
    shards: Vec<Engine<C>>,
    routes: Vec<TagRoute>,
    limits: EngineLimits,
}

impl<C: Clock> View for ShardedEngine<C> {
    type V = ShardedModel;

    closed spec fn view(&self) -> ShardedModel {
        ShardedModel {
            shards: self.shards@.map_values(|e: Engine<C>| e@),
            routes: self.routes@.map_values(|r: TagRoute| r@),
            limits: self.limits,
        }
    }
}

// ---------------------------------------------------------------------------
// The tag directory.
// ---------------------------------------------------------------------------

/// The route of this tag of this namespace.
pub open spec fn is_route(ns: Seq<char>, tag: Seq<char>) -> spec_fn(RouteModel) -> bool {
    |r: RouteModel| r.namespace == ns && r.tag == tag
}

/// Where the route of a tag is, -1 when it has none.
pub open spec fn route_index(rs: Seq<RouteModel>, ns: Seq<char>, tag: Seq<char>) -> int {
    find_first(rs, is_route(ns, tag), rs.len() as int)
}

pub open spec fn is_shard(s: usize) -> spec_fn(usize) -> bool {
    |x: usize| x == s
}

/// A list of shards without the shard `s`.
pub open spec fn without_shard(ss: Seq<usize>, s: usize) -> Seq<usize> {
    let k = find_first(ss, is_shard(s), ss.len() as int);
    if k >= 0 {
        ss.remove(k)
    } else {
        ss
    }
}

/// The directory with shard `s` no longer routed for a tag; a route left
/// with no shard goes.
pub open spec fn unroute(rs: Seq<RouteModel>, s: usize, ns: Seq<char>, tag: Seq<char>) -> Seq<
    RouteModel,
> {
    let i = route_index(rs, ns, tag);
    if i < 0 {
        rs
    } else {
        let left = without_shard(rs[i].shards, s);
        if left.len() == 0 {
            rs.remove(i)
        } else {
            rs.update(i, RouteModel { shards: left, ..rs[i] })
        }
    }
}

/// The directory with shard `s` routed for a tag.
pub open spec fn route_to(rs: Seq<RouteModel>, s: usize, ns: Seq<char>, tag: Seq<char>) -> Seq<
    RouteModel,
> {
    let i = route_index(rs, ns, tag);
    if i < 0 {
        rs.push(RouteModel { namespace: ns, tag, shards: seq![s] })
    } else if find_first(rs[i].shards, is_shard(s), rs[i].shards.len() as int) >= 0 {
        rs
    } else {
        rs.update(i, RouteModel { shards: rs[i].shards.push(s), ..rs[i] })
    }
}

pub open spec fn unroute_all(rs: Seq<RouteModel>, s: usize, ns: Seq<char>, tags: Seq<Seq<char>>) -> Seq<
    RouteModel,
>
    decreases tags.len(),
{
    if tags.len() == 0 {
        rs
    } else {
        unroute(unroute_all(rs, s, ns, tags.drop_last()), s, ns, tags.last())
    }
}

pub open spec fn route_all(rs: Seq<RouteModel>, s: usize, ns: Seq<char>, tags: Seq<Seq<char>>) -> Seq<
    RouteModel,
>
    decreases tags.len(),
{
    if tags.len() == 0 {
        rs
    } else {
        route_to(route_all(rs, s, ns, tags.drop_last()), s, ns, tags.last())
    }
}

/// The directory after a change on shard `s`: the tags in `remove` are no
/// longer routed there, then the tags in `add` are.
pub open spec fn update_routes(
    rs: Seq<RouteModel>,
    s: usize,
    ns: Seq<char>,
    add: Seq<Seq<char>>,
    remove: Seq<Seq<char>>,
) -> Seq<RouteModel> {
    route_all(unroute_all(rs, s, ns, remove), s, ns, add)
}

/// Those of `tags` that no entry of the namespace in shard `m` carries.
pub open spec fn stale_tags(tags: Seq<Seq<char>>, m: EngineModel, ns: Seq<char>) -> Seq<Seq<char>>
    decreases tags.len(),
{
    if tags.len() == 0 {
        Seq::empty()
    } else {
        let rest = stale_tags(tags.drop_last(), m, ns);
        if shard_has_tag(m, ns, tags.last()) {
            rest
        } else {
            rest.push(tags.last())
        }
    }
}

/// Every routed shard exists.
pub open spec fn routes_wf(rs: Seq<RouteModel>, n: nat) -> bool {
    forall|i: int, j: int|
        0 <= i < rs.len() && 0 <= j < rs[i].shards.len() ==> #[trigger] rs[i].shards[j] < n
}

proof fn lemma_without_shard(ss: Seq<usize>, s: usize, n: nat)
    requires
        forall|j: int| 0 <= j < ss.len() ==> #[trigger] ss[j] < n,
    ensures
        forall|j: int| 0 <= j < without_shard(ss, s).len() ==> #[trigger] without_shard(ss, s)[j] < n,
{
    lemma_find_first(ss, is_shard(s), ss.len() as int);
    let k = find_first(ss, is_shard(s), ss.len() as int);
    if k >= 0 {
        let r = ss.remove(k);
        assert forall|j: int| 0 <= j < r.len() implies #[trigger] r[j] < n by {
            if j < k {
                assert(r[j] == ss[j]);
            } else {
                assert(r[j] == ss[j + 1]);
            }
        }
    }
}

proof fn lemma_unroute_wf(rs: Seq<RouteModel>, s: usize, ns: Seq<char>, tag: Seq<char>, n: nat)
    requires
        routes_wf(rs, n),
    ensures
        routes_wf(unroute(rs, s, ns, tag), n),
{
    let i = route_index(rs, ns, tag);
    lemma_find_first(rs, is_route(ns, tag), rs.len() as int);
    if i >= 0 {
        let ss = rs[i].shards;
        assert(forall|j: int| 0 <= j < ss.len() ==> #[trigger] ss[j] < n) by {
            assert forall|j: int| 0 <= j < ss.len() implies #[trigger] ss[j] < n by {
                assert(rs[i].shards[j] < n);
            }
        }
        lemma_without_shard(ss, s, n);
        let left = without_shard(ss, s);
        let out = unroute(rs, s, ns, tag);
        if left.len() == 0 {
            let r = rs.remove(i);
            assert forall|a: int, b: int|
                0 <= a < r.len() && 0 <= b < r[a].shards.len() implies #[trigger] r[a].shards[b]
                < n by {
                if a < i {
                    assert(r[a] == rs[a]);
                } else {
                    assert(r[a] == rs[a + 1]);
                }
            }
        } else {
            let r = rs.update(i, RouteModel { shards: left, ..rs[i] });
            assert forall|a: int, b: int|
                0 <= a < r.len() && 0 <= b < r[a].shards.len() implies #[trigger] r[a].shards[b]
                < n by {
                if a == i {
                    assert(r[a].shards == left);
                    assert(left[b] < n);
                } else {
                    assert(r[a] == rs[a]);
                }
            }
        }
    }
}

proof fn lemma_route_to_wf(rs: Seq<RouteModel>, s: usize, ns: Seq<char>, tag: Seq<char>, n: nat)
    requires
        routes_wf(rs, n),
        s < n,
    ensures
        routes_wf(route_to(rs, s, ns, tag), n),
{
    let i = route_index(rs, ns, tag);
    lemma_find_first(rs, is_route(ns, tag), rs.len() as int);
    let r = route_to(rs, s, ns, tag);
    if i < 0 {
        assert forall|a: int, b: int|
            0 <= a < r.len() && 0 <= b < r[a].shards.len() implies #[trigger] r[a].shards[b]
            < n by {
            if a < rs.len() {
                assert(r[a] == rs[a]);
            }
        }
    } else if find_first(rs[i].shards, is_shard(s), rs[i].shards.len() as int) < 0 {
        assert forall|a: int, b: int|
            0 <= a < r.len() && 0 <= b < r[a].shards.len() implies #[trigger] r[a].shards[b]
            < n by {
            if a == i {
                if b < rs[i].shards.len() {
                    assert(r[a].shards[b] == rs[i].shards[b]);
                }
            } else {
                assert(r[a] == rs[a]);
            }
        }
    }
}

proof fn lemma_update_routes_wf(
    rs: Seq<RouteModel>,
    s: usize,
    ns: Seq<char>,
    add: Seq<Seq<char>>,
    remove: Seq<Seq<char>>,
    n: nat,
)
    requires
        routes_wf(rs, n),
        s < n,
    ensures
        routes_wf(unroute_all(rs, s, ns, remove), n),
        routes_wf(update_routes(rs, s, ns, add, remove), n),
    decreases add.len() + remove.len(),
{
    if remove.len() > 0 {
        lemma_update_routes_wf(rs, s, ns, Seq::empty(), remove.drop_last(), n);
        lemma_unroute_wf(unroute_all(rs, s, ns, remove.drop_last()), s, ns, remove.last(), n);
    }
    if add.len() > 0 {
        lemma_update_routes_wf(rs, s, ns, add.drop_last(), remove, n);
        lemma_route_to_wf(
            route_all(unroute_all(rs, s, ns, remove), s, ns, add.drop_last()),
            s,
            ns,
            add.last(),
            n,
        );
    }
}

// ---------------------------------------------------------------------------
// The operations.
// ---------------------------------------------------------------------------

/// The limits of each shard: the memory cap split evenly (rounded up), the
/// value limit as it is.
pub open spec fn shard_limits(limits: EngineLimits, n: nat) -> EngineLimits {
    EngineLimits {
        max_memory_bytes: (limits.max_memory_bytes as int / n as int + if limits.max_memory_bytes
            as int % n as int == 0 {
            0int
        } else {
            1int
        }) as usize,
        max_value_bytes: limits.max_value_bytes,
    }
}

/// A sharded engine with `n` empty shards and an empty directory.
pub open spec fn empty_sharded(limits: EngineLimits, n: nat) -> ShardedModel {
    ShardedModel {
        shards: Seq::new(n, |i: int| empty_engine(shard_limits(limits, n))),
        routes: Seq::empty(),
        limits,
    }
}

/// A write at `now` on the shard of its id; the directory routes the new
/// tags there when the write succeeds, and stops routing the replaced
/// entry's tags that no entry of the shard carries any more.
pub open spec fn sharded_put_at(m: ShardedModel, c: PutModel, now: u64) -> (
    Result<PutOutcome, PutError>,
    ShardedModel,
) {
    let s = shard_of(c.namespace, c.key, m.shards.len());
    let old_tags = entry_tags(m.shards[s], c.namespace, c.key);
    let (r, m1) = put_at(m.shards[s], c, now);
    let add = if r is Ok {
        c.tags
    } else {
        Seq::empty()
    };
    (
        r,
        ShardedModel {
            shards: m.shards.update(s, m1),
            routes: update_routes(
                m.routes,
                s as usize,
                c.namespace,
                add,
                stale_tags(old_tags, m1, c.namespace),
            ),
            ..m
        },
    )
}

/// A lease completion at `now` on the shard of its id, with the directory
/// kept as for a write.
pub open spec fn sharded_complete_lease_at(m: ShardedModel, c: CompleteLeaseModel, now: u64) -> (
    Result<PutOutcome, CompleteLeaseError>,
    ShardedModel,
) {
    let ns = c.put.namespace;
    let s = shard_of(ns, c.put.key, m.shards.len());
    let old_tags = entry_tags(m.shards[s], ns, c.put.key);
    let (r, m1) = complete_lease_at(m.shards[s], c, now);
    let add = if r is Ok {
        c.put.tags
    } else {
        Seq::empty()
    };
    (
        r,
        ShardedModel {
            shards: m.shards.update(s, m1),
            routes: update_routes(m.routes, s as usize, ns, add, stale_tags(old_tags, m1, ns)),
            ..m
        },
    )
}

/// A read at `now` on the shard of its id.
pub open spec fn sharded_get_at(m: ShardedModel, ns: Seq<char>, key: Seq<u8>, now: u64, update_access: bool) -> (
    GetModel,
    ShardedModel,
) {
    let s = shard_of(ns, key, m.shards.len());
    let (g, m1) = get_at(m.shards[s], ns, key, now, update_access);
    (g, ShardedModel { shards: m.shards.update(s, m1), ..m })
}

/// A lease request at `now` on the shard of its id.
pub open spec fn sharded_start_lease_at(m: ShardedModel, ns: Seq<char>, key: Seq<u8>, ttl: u64, now: u64) -> (
    StartLeaseModel,
    ShardedModel,
) {
    let s = shard_of(ns, key, m.shards.len());
    let (o, m1) = start_lease_at(m.shards[s], ns, key, ttl, now);
    (o, ShardedModel { shards: m.shards.update(s, m1), ..m })
}

/// A delete on the shard of its id; when an entry went, the directory stops
/// routing its tags that no entry of the shard carries any more.
pub open spec fn sharded_delete(m: ShardedModel, ns: Seq<char>, key: Seq<u8>) -> (bool, ShardedModel) {
    let s = shard_of(ns, key, m.shards.len());
    let old_tags = entry_tags(m.shards[s], ns, key);
    let (removed, m1) = delete(m.shards[s], ns, key);
    (
        removed,
        ShardedModel {
            shards: m.shards.update(s, m1),
            routes: if removed {
                unroute_all(m.routes, s as usize, ns, stale_tags(old_tags, m1, ns))
            } else {
                m.routes
            },
            ..m
        },
    )
}

/// Reads of several keys, the read of `keys[i]` made at `times[i]`.
pub open spec fn sharded_batch_get_at(m: ShardedModel, ns: Seq<char>, keys: Seq<Seq<u8>>, times: Seq<u64>) -> (
    Seq<GetModel>,
    ShardedModel,
)
    decreases keys.len(),
{
    if keys.len() == 0 {
        (Seq::empty(), m)
    } else {
        let (rs, m1) = sharded_batch_get_at(m, ns, keys.drop_last(), times.drop_last());
        let (g, m2) = sharded_get_at(m1, ns, keys.last(), times.last(), true);
        (rs.push(g), m2)
    }
}

/// A tag invalidated on the shards `ks`, one after the other; how many
/// entries went.
pub open spec fn invalidate_on(shards: Seq<EngineModel>, ks: Seq<usize>, ns: Seq<char>, tag: Seq<char>) -> (
    nat,
    Seq<EngineModel>,
)
    decreases ks.len(),
{
    if ks.len() == 0 {
        (0, shards)
    } else {
        let (c, sh) = invalidate_on(shards, ks.drop_last(), ns, tag);
        let k = ks.last() as int;
        let (c2, m2) = invalidate(sh[k], ns, tag, sh[k].entries.len());
        (c + c2, sh.update(k, m2))
    }
}

/// A tag invalidated on the shards its route names; the route goes.
pub open spec fn sharded_invalidate(m: ShardedModel, ns: Seq<char>, tag: Seq<char>) -> (
    nat,
    ShardedModel,
) {
    let i = route_index(m.routes, ns, tag);
    if i < 0 {
        (0, m)
    } else {
        let (c, sh) = invalidate_on(m.shards, m.routes[i].shards, ns, tag);
        (c, ShardedModel { shards: sh, routes: m.routes.remove(i), ..m })
    }
}

/// Reclaiming expired entries shard by shard within one budget: the state
/// after the first `k` shards, shard `j` reclaimed at `times[j]` with what
/// is left of the budget; how many went.
pub open spec fn reclaim_shards(shards: Seq<EngineModel>, budget: nat, times: Seq<u64>, k: nat) -> (
    nat,
    Seq<EngineModel>,
)
    decreases k,
{
    if k == 0 {
        (0, shards)
    } else {
        let (c, sh) = reclaim_shards(shards, budget, times, (k - 1) as nat);
        if c >= budget {
            (c, sh)
        } else {
            let j = k - 1;
            let (c2, m2) = reclaim(sh[j], times[j], (budget - c) as nat);
            (c + c2, sh.update(j, m2))
        }
    }
}

pub open spec fn total_len(shards: Seq<EngineModel>) -> nat
    decreases shards.len(),
{
    if shards.len() == 0 {
        0
    } else {
        total_len(shards.drop_last()) + shards.last().entries.len()
    }
}

pub open spec fn total_memory(shards: Seq<EngineModel>) -> nat
    decreases shards.len(),
{
    if shards.len() == 0 {
        0
    } else {
        total_memory(shards.drop_last()) + shards.last().memory_used_bytes as nat
    }
}

pub open spec fn total_cost(shards: Seq<EngineModel>) -> nat
    decreases shards.len(),
{
    if shards.len() == 0 {
        0
    } else {
        total_cost(shards.drop_last()) + shards.last().cost_score_total as nat
    }
}

/// The shards' counters added up, each saturating at `u64::MAX`.
pub open spec fn total_stats(shards: Seq<EngineModel>) -> EngineStats
    decreases shards.len(),
{
    if shards.len() == 0 {
        EngineStats { expirations: 0, evictions: 0 }
    } else {
        let t = total_stats(shards.drop_last());
        let s = shards.last().stats;
        EngineStats {
            expirations: crate::engine::sat_add_u64(t.expirations as int, s.expirations as int),
            evictions: crate::engine::sat_add_u64(t.evictions as int, s.evictions as int),
        }
    }
}

pub open spec fn cap_usize(n: nat) -> usize {
    if n > usize::MAX {
        usize::MAX
    } else {
        n as usize
    }
}

pub open spec fn cap_u64(n: nat) -> u64 {
    if n > u64::MAX {
        u64::MAX
    } else {
        n as u64
    }
}

proof fn lemma_reclaim_shards_prefix(shards: Seq<EngineModel>, budget: nat, t1: Seq<u64>, t2: Seq<u64>, k: nat)
    requires
        k <= t1.len(),
        k <= t2.len(),
        forall|j: int| 0 <= j < k ==> t1[j] == t2[j],
    ensures
        reclaim_shards(shards, budget, t1, k) == reclaim_shards(shards, budget, t2, k),
    decreases k,
{
    if k > 0 {
        lemma_reclaim_shards_prefix(shards, budget, t1, t2, (k - 1) as nat);
    }
}

/// Those of `tags` that no entry of the namespace in `shard` carries.
fn stale_tags_exec<C: Clock>(tags: &Vec<String>, shard: &Engine<C>, ns: &str) -> (r: Vec<String>)
    ensures
        strings_view(r@) == stale_tags(strings_view(tags@), shard@, ns@),
{
    let ghost tv = strings_view(tags@);
    let mut r: Vec<String> = Vec::new();
    let mut i: usize = 0;
    assert(tv.take(0) =~= Seq::<Seq<char>>::empty());
    assert(strings_view(r@) =~= Seq::<Seq<char>>::empty());
    while i < tags.len()
        invariant
            tv == strings_view(tags@),
            0 <= i <= tags@.len(),
            strings_view(r@) == stale_tags(tv.take(i as int), shard@, ns@),
        decreases tags@.len() - i,
    {
        assert(tv.take(i as int + 1).drop_last() =~= tv.take(i as int));
        assert(tv.take(i as int + 1).last() == tags@[i as int]@);
        if !shard.has_tag_id(ns, tags[i].as_str()) {
            let ghost prev = r@;
            r.push(tags[i].clone());
            assert(strings_view(r@) =~= strings_view(prev).push(tags@[i as int]@));
        }
        i = i + 1;
    }
    assert(tv.take(tags@.len() as int) =~= tv);
    r
}

/// Where shard `s` is in a list of shards.
fn shard_position(v: &Vec<usize>, s: usize) -> (r: Option<usize>)
    ensures
        match r {
            Some(k) => k == find_first(v@, is_shard(s), v@.len() as int) && k < v@.len(),
            None => find_first(v@, is_shard(s), v@.len() as int) == -1,
        },
{
    let mut k: usize = 0;
    while k < v.len()
        invariant
            0 <= k <= v@.len(),
            forall|j: int| 0 <= j < k ==> !is_shard(s)(#[trigger] v@[j]),
        decreases v@.len() - k,
    {
        if v[k] == s {
            proof {
                lemma_find_first_at(v@, is_shard(s), k as int);
            }
            return Some(k);
        }
        k = k + 1;
    }
    proof {
        lemma_find_first_absent(v@, is_shard(s));
    }
    None
}

/// Room that each shard keeps beyond a value of the largest size, for the
/// entry's fixed overhead, its namespace, key and tags.
pub const SHARD_ENTRY_HEADROOM_BYTES: usize = 65536;

/// How many shards a cache with these limits is split into: as many as
/// leave each shard's share of the memory cap room for a value of the
/// largest size and the headroom, at least one and at most the default
/// shard count.
pub open spec fn shard_count_for(limits: EngineLimits) -> nat {
    let n = limits.max_memory_bytes as int / (limits.max_value_bytes + SHARD_ENTRY_HEADROOM_BYTES);
    if n < 1 {
        1
    } else if n > DEFAULT_SHARD_COUNT {
        DEFAULT_SHARD_COUNT as nat
    } else {
        n as nat
    }
}

/// The shard count for these limits (`shard_count_for`).
pub fn choose_shard_count(limits: EngineLimits) -> (r: usize)
    ensures
        r == shard_count_for(limits),
        1 <= r <= DEFAULT_SHARD_COUNT,
{
    let room = limits.max_value_bytes.checked_add(SHARD_ENTRY_HEADROOM_BYTES);
    match room {
        None => {
            proof {
                let big: int = limits.max_value_bytes + SHARD_ENTRY_HEADROOM_BYTES;
                let a: int = limits.max_memory_bytes as int;
                assert(0 <= a < big);
                assert(a / big == 0) by (nonlinear_arith)
                    requires
                        0 <= a < big,
                ;
            }
            1
        },
        Some(room) => {
            let n = limits.max_memory_bytes / room;
            if n < 1 {
                1
            } else if n > DEFAULT_SHARD_COUNT {
                DEFAULT_SHARD_COUNT
            } else {
                n
            }
        },
    }
}

/// With the shard count chosen for the limits, each shard's share of the
/// memory cap holds a value of the largest size with the headroom, where the
/// whole cap does.
pub proof fn law_each_shard_holds_largest_value(limits: EngineLimits)
    requires
        limits.max_value_bytes + SHARD_ENTRY_HEADROOM_BYTES <= limits.max_memory_bytes,
    ensures
        shard_limits(limits, shard_count_for(limits)).max_memory_bytes >= limits.max_value_bytes
            + SHARD_ENTRY_HEADROOM_BYTES,
{
    let room: int = limits.max_value_bytes + SHARD_ENTRY_HEADROOM_BYTES;
    let a: int = limits.max_memory_bytes as int;
    let n: int = shard_count_for(limits) as int;
    assert(a / room >= 1) by (nonlinear_arith)
        requires
            0 < room <= a,
    ;
    assert(1 <= n <= a / room);
    assert(a / n >= room) by (nonlinear_arith)
        requires
            0 < room,
            1 <= n <= a / room,
            0 <= a,
    {
        assert(n * room <= (a / room) * room);
        assert((a / room) * room <= a);
        assert(n * room <= a);
    }
    assert(a / n <= a) by (nonlinear_arith)
        requires
            1 <= n,
            0 <= a,
    ;
    if a % n != 0 {
        assert(n >= 2);
        assert(a / n <= a / 2) by (nonlinear_arith)
            requires
                n >= 2,
                0 <= a,
        ;
        assert(a / n + 1 <= usize::MAX);
    }
}

impl ShardedEngine<SystemClock> {
    /// A sharded engine on the system clock, split into the shard count
    /// chosen for the limits (`shard_count_for`), so that a value of the
    /// largest size fits a shard.
    pub fn with_limits(limits: EngineLimits) -> (r: Self)
        ensures
            r.wf(),
            r@ == empty_sharded(limits, shard_count_for(limits)),
    {
        let n = choose_shard_count(limits);
        Self::with_clock_and_limits(SystemClock, limits, n)
    }
}

impl<C: Clock> ShardedEngine<C> {
    /// The invariant: the shards and the directory are each in order
    /// (`parts_wf`), and the directory covers the shards: every shard that
    /// holds a tag of a namespace is routed for it.
    pub open spec fn wf(&self) -> bool {
        &&& self.parts_wf()
        &&& crate::directory::routes_cover(self@)
    }

    /// At least one shard, each shard's own invariant, and a directory that
    /// names only existing shards.
    pub open spec fn parts_wf(&self) -> bool {
        &&& self@.shards.len() > 0
        &&& self@.shards.len() <= usize::MAX
        &&& forall|k: int| 0 <= k < self@.shards.len() ==> engine_inv(#[trigger] self@.shards[k])
        &&& routes_wf(self@.routes, self@.shards.len())
    }

    /// `shard_count` shards, each an empty engine with its share of the
    /// memory cap, and an empty directory.
    pub fn with_clock_and_limits(clock: C, limits: EngineLimits, shard_count: usize) -> (r: Self)
        requires
            shard_count > 0,
        ensures
            r.wf(),
            r@ == empty_sharded(limits, shard_count as nat),
    {
        let a = limits.max_memory_bytes;
        proof {
            if a % shard_count != 0 {
                assert(shard_count >= 2);
                assert(a / shard_count <= a / 2) by (nonlinear_arith)
                    requires
                        shard_count >= 2,
                ;
            }
        }
        let share = limits.max_memory_bytes / shard_count + if limits.max_memory_bytes
            % shard_count == 0 {
            0
        } else {
            1
        };
        let per_shard = EngineLimits { max_memory_bytes: share, max_value_bytes: limits.max_value_bytes };
        let mut shards: Vec<Engine<C>> = Vec::new();
        let mut k: usize = 0;
        while k < shard_count
            invariant
                0 <= k <= shard_count,
                shards@.len() == k,
                per_shard == shard_limits(limits, shard_count as nat),
                forall|j: int|
                    0 <= j < k ==> (#[trigger] shards@[j])@ == empty_engine(
                        shard_limits(limits, shard_count as nat),
                    ) && shards@[j].wf(),
            decreases shard_count - k,
        {
            shards.push(Engine::with_clock_and_limits(clock.clone(), per_shard));
            k = k + 1;
        }
        let r = ShardedEngine { shards, routes: Vec::new(), limits };
        assert(r@.shards =~= empty_sharded(limits, shard_count as nat).shards);
        assert(r@.routes =~= Seq::<RouteModel>::empty());
        proof {
            crate::directory::law_new_directory_covers(limits, shard_count as nat);
        }
        r
    }

    fn shard_index_for(&self, namespace: &str, key: &[u8]) -> (r: usize)
        requires
            self.shards@.len() > 0,
        ensures
            r == shard_of(namespace@, key@, self.shards@.len() as nat),
            r < self.shards@.len(),
    {
        let h = id_hash(namespace, key);
        (h as usize) % self.shards.len()
    }

    fn route_position(&self, ns: &str, tag: &str) -> (r: Option<usize>)
        ensures
            match r {
                Some(i) => i == route_index(self@.routes, ns@, tag@) && i < self@.routes.len(),
                None => route_index(self@.routes, ns@, tag@) == -1,
            },
    {
        let ghost rs = self@.routes;
        let ghost p = is_route(ns@, tag@);
        let mut i: usize = 0;
        while i < self.routes.len()
            invariant
                rs == self@.routes,
                p == is_route(ns@, tag@),
                0 <= i <= rs.len(),
                forall|j: int| 0 <= j < i ==> !p(#[trigger] rs[j]),
            decreases rs.len() - i,
        {
            assert(rs[i as int] == self.routes@[i as int]@);
            if text_eq(self.routes[i].namespace.as_str(), ns) && text_eq(
                self.routes[i].tag.as_str(),
                tag,
            ) {
                proof {
                    lemma_find_first_at(rs, p, i as int);
                }
                return Some(i);
            }
            i = i + 1;
        }
        proof {
            lemma_find_first_absent(rs, p);
        }
        None
    }

    /// Stops routing shard `s` for a tag.
    fn unroute_exec(&mut self, s: usize, ns: &str, tag: &str)
        ensures
            final(self)@ == (ShardedModel {
                routes: unroute(old(self)@.routes, s, ns@, tag@),
                ..old(self)@
            }),
    {
        let i = match self.route_position(ns, tag) {
            Some(i) => i,
            None => {
                return ;
            },
        };
        let ghost rs = self@.routes;
        let ghost before = self.routes@;
        let mut route = self.routes.remove(i);
        assert(route@ == rs[i as int]);
        let ghost ss = route.shards@;
        let found = shard_position(&route.shards, s);
        match found {
            Some(k) => {
                route.shards.remove(k);
            },
            None => {},
        }
        assert(route@.shards == without_shard(ss, s));
        if route.shards.len() == 0 {
            assert(self.routes@.map_values(|r: TagRoute| r@) =~= rs.remove(i as int));
        } else {
            self.routes.insert(i, route);
            assert(self.routes@.map_values(|r: TagRoute| r@) =~= rs.update(
                i as int,
                RouteModel { shards: without_shard(ss, s), ..rs[i as int] },
            ));
        }
    }

    /// Routes shard `s` for a tag.
    fn route_to_exec(&mut self, s: usize, ns: &str, tag: &str)
        ensures
            final(self)@ == (ShardedModel {
                routes: route_to(old(self)@.routes, s, ns@, tag@),
                ..old(self)@
            }),
    {
        let ghost rs = self@.routes;
        match self.route_position(ns, tag) {
            None => {
                let mut shards: Vec<usize> = Vec::new();
                shards.push(s);
                let route = TagRoute {
                    namespace: String::from_str(ns),
                    tag: String::from_str(tag),
                    shards,
                };
                self.routes.push(route);
                assert(route@.shards =~= seq![s]);
                assert(self.routes@.map_values(|r: TagRoute| r@) =~= rs.push(route@));
            },
            Some(i) => {
                let mut route = self.routes.remove(i);
                assert(route@ == rs[i as int]);
                let ghost ss = route.shards@;
                let present = shard_position(&route.shards, s).is_some();
                if !present {
                    route.shards.push(s);
                    self.routes.insert(i, route);
                    assert(self.routes@.map_values(|r: TagRoute| r@) =~= rs.update(
                        i as int,
                        RouteModel { shards: ss.push(s), ..rs[i as int] },
                    ));
                } else {
                    self.routes.insert(i, route);
                    assert(self.routes@.map_values(|r: TagRoute| r@) =~= rs);
                }
            },
        }
    }

    /// Takes shard `s` out, to be put back with `restore`.
    fn take_shard(&mut self, s: usize) -> (shard: Engine<C>)
        requires
            s < old(self)@.shards.len(),
            old(self).parts_wf(),
        ensures
            shard@ == old(self)@.shards[s as int],
            shard.wf(),
            final(self).shards@.len() == old(self).shards@.len() - 1,
            forall|k: int| 0 <= k < s ==> #[trigger] final(self).shards@[k] == old(self).shards@[k],
            forall|k: int|
                s <= k < final(self).shards@.len() ==> #[trigger] final(self).shards@[k]
                    == old(self).shards@[k + 1],
            final(self).routes == old(self).routes,
            final(self).limits == old(self).limits,
    {
        let shard = self.shards.remove(s);
        assert(old(self)@.shards[s as int] == old(self).shards@[s as int]@);
        shard
    }

    /// Puts a shard back where `take_shard` took it.
    fn restore(&mut self, s: usize, shard: Engine<C>, Ghost(before): Ghost<ShardedModel>)
        requires
            s <= old(self).shards@.len(),
            s < before.shards.len(),
            old(self).shards@.len() + 1 == before.shards.len(),
            forall|k: int| 0 <= k < s ==> (#[trigger] old(self).shards@[k])@ == before.shards[k],
            forall|k: int|
                s <= k < old(self).shards@.len() ==> (#[trigger] old(self).shards@[k])@
                    == before.shards[k + 1],
            forall|k: int| 0 <= k < before.shards.len() ==> engine_inv(#[trigger] before.shards[k]),
            shard.wf(),
        ensures
            final(self)@.shards == before.shards.update(s as int, shard@),
            forall|k: int| 0 <= k < final(self)@.shards.len() ==> engine_inv(#[trigger] final(self)@.shards[k]),
            final(self).routes == old(self).routes,
            final(self).limits == old(self).limits,
    {
        let ghost sh = shard@;
        self.shards.insert(s, shard);
        assert(self@.shards =~= before.shards.update(s as int, sh));
    }

    /// A write now on the shard of its id, with the directory kept.
    pub fn put(&mut self, command: PutCommand) -> (r: Result<PutOutcome, PutError>)
        requires
            old(self).wf(),
        ensures
            final(self).wf(),
            exists|now: u64| (r, final(self)@) == #[trigger] sharded_put_at(old(self)@, command@, now),
    {
        let ghost m0 = self@;
        let ghost c = command@;
        let s = self.shard_index_for(command.namespace.as_str(), command.key.as_slice());
        let ns = command.namespace.clone();
        let new_tags = copy_strings(&command.tags);
        let mut shard = self.take_shard(s);
        let old_tags = shard.tag_ids_for_entry(ns.as_str(), command.key.as_slice());
        let ghost before = shard@;
        let r = shard.put(command);
        let ghost now = choose|now: u64| (r, shard@) == #[trigger] put_at(before, c, now);
        let remove = stale_tags_exec(&old_tags, &shard, ns.as_str());
        self.restore(s, shard, Ghost(m0));
        let add = if r.is_ok() {
            new_tags
        } else {
            Vec::new()
        };
        assert(strings_view(add@) == (if r is Ok {
            c.tags
        } else {
            Seq::empty()
        }));
        self.update_tag_routes(s, ns.as_str(), &add, &remove);
        proof {
            lemma_update_routes_wf(m0.routes, s, c.namespace, strings_view(add@), strings_view(remove@), m0.shards.len());
            assert((r, self@) == sharded_put_at(m0, c, now));
            crate::directory::law_put_keeps_directory(m0, c, now);
        }
        r
    }

    /// A lease completion now on the shard of its id, with the directory
    /// kept as for a write.
    pub fn complete_lease(&mut self, command: CompleteLeaseCommand) -> (r: Result<PutOutcome, CompleteLeaseError>)
        requires
            old(self).wf(),
        ensures
            final(self).wf(),
            exists|now: u64| (r, final(self)@) == #[trigger] sharded_complete_lease_at(old(self)@, command@, now),
    {
        let ghost m0 = self@;
        let ghost c = command@;
        let s = self.shard_index_for(command.namespace.as_str(), command.key.as_slice());
        let ns = command.namespace.clone();
        let new_tags = copy_strings(&command.tags);
        let mut shard = self.take_shard(s);
        let old_tags = shard.tag_ids_for_entry(ns.as_str(), command.key.as_slice());
        let ghost before = shard@;
        let r = shard.complete_lease(command);
        let ghost now = choose|now: u64| (r, shard@) == #[trigger] complete_lease_at(before, c, now);
        let remove = stale_tags_exec(&old_tags, &shard, ns.as_str());
        self.restore(s, shard, Ghost(m0));
        let add = if r.is_ok() {
            new_tags
        } else {
            Vec::new()
        };
        assert(strings_view(add@) == (if r is Ok {
            c.put.tags
        } else {
            Seq::empty()
        }));
        self.update_tag_routes(s, ns.as_str(), &add, &remove);
        proof {
            lemma_update_routes_wf(m0.routes, s, c.put.namespace, strings_view(add@), strings_view(remove@), m0.shards.len());
            assert((r, self@) == sharded_complete_lease_at(m0, c, now));
            crate::directory::law_complete_lease_keeps_directory(m0, c, now);
        }
        r
    }

    /// A read now on the shard of its id, counted as an access.
    pub fn get(&mut self, namespace: &str, key: &[u8]) -> (r: GetOutcome)
        requires
            old(self).wf(),
        ensures
            final(self).wf(),
            exists|now: u64| (r@, final(self)@) == #[trigger] sharded_get_at(old(self)@, namespace@, key@, now, true),
    {
        let ghost m0 = self@;
        let s = self.shard_index_for(namespace, key);
        let mut shard = self.take_shard(s);
        let ghost before = shard@;
        let r = shard.get(namespace, key);
        let ghost now = choose|now: u64| (r@, shard@) == #[trigger] get_at(before, namespace@, key@, now, true);
        self.restore(s, shard, Ghost(m0));
        assert((r@, self@) == sharded_get_at(m0, namespace@, key@, now, true));
        proof {
            crate::directory::law_get_keeps_directory(m0, namespace@, key@, now, true);
        }
        r
    }

    /// A read now on the shard of its id, counted as an access, whose
    /// outcome borrows the stored value and is handed to `map`.
    pub fn get_ref<R, F: FnOnce(GetOutcomeRef<'_>) -> R>(&mut self, namespace: &str, key: &[u8], map: F) -> (r: R)
        requires
            old(self).wf(),
            forall|o: GetOutcomeRef| #[trigger] map.requires((o,)),
        ensures
            final(self).wf(),
            exists|now: u64, o: GetOutcomeRef|
                final(self)@ == #[trigger] sharded_get_at(old(self)@, namespace@, key@, now, true).1
                    && o@ == sharded_get_at(old(self)@, namespace@, key@, now, true).0
                    && #[trigger] map.ensures((o,), r),
    {
        let ghost m0 = self@;
        let s = self.shard_index_for(namespace, key);
        let mut shard = self.take_shard(s);
        let ghost before = shard@;
        let r = shard.get_ref(namespace, key, map);
        let ghost (now, o) = choose|now: u64, o: GetOutcomeRef|
            shard@ == #[trigger] get_at(before, namespace@, key@, now, true).1 && o@ == get_at(
                before,
                namespace@,
                key@,
                now,
                true,
            ).0 && #[trigger] map.ensures((o,), r);
        self.restore(s, shard, Ghost(m0));
        assert(self@ == sharded_get_at(m0, namespace@, key@, now, true).1);
        proof {
            crate::directory::law_get_keeps_directory(m0, namespace@, key@, now, true);
        }
        r
    }

    /// A read now on the shard of its id that is not counted as an access,
    /// whose outcome borrows the stored value and is handed to `map`.
    pub fn get_ref_without_access_update<R, F: FnOnce(GetOutcomeRef<'_>) -> R>(&mut self, namespace: &str, key: &[u8], map: F) -> (r: R)
        requires
            old(self).wf(),
            forall|o: GetOutcomeRef| #[trigger] map.requires((o,)),
        ensures
            final(self).wf(),
            exists|now: u64, o: GetOutcomeRef|
                final(self)@ == #[trigger] sharded_get_at(old(self)@, namespace@, key@, now, false).1
                    && o@ == sharded_get_at(old(self)@, namespace@, key@, now, false).0
                    && #[trigger] map.ensures((o,), r),
    {
        let ghost m0 = self@;
        let s = self.shard_index_for(namespace, key);
        let mut shard = self.take_shard(s);
        let ghost before = shard@;
        let r = shard.get_ref_without_access_update(namespace, key, map);
        let ghost (now, o) = choose|now: u64, o: GetOutcomeRef|
            shard@ == #[trigger] get_at(before, namespace@, key@, now, false).1 && o@ == get_at(
                before,
                namespace@,
                key@,
                now,
                false,
            ).0 && #[trigger] map.ensures((o,), r);
        self.restore(s, shard, Ghost(m0));
        assert(self@ == sharded_get_at(m0, namespace@, key@, now, false).1);
        proof {
            crate::directory::law_get_keeps_directory(m0, namespace@, key@, now, false);
        }
        r
    }

    /// A lease request now on the shard of its id.
    pub fn start_lease(&mut self, namespace: &str, key: &[u8], lease_ttl_ms: u64) -> (r: StartLeaseOutcome)
        requires
            old(self).wf(),
        ensures
            final(self).wf(),
            exists|now: u64| (r@, final(self)@) == #[trigger] sharded_start_lease_at(old(self)@, namespace@, key@, lease_ttl_ms, now),
    {
        let ghost m0 = self@;
        let s = self.shard_index_for(namespace, key);
        let mut shard = self.take_shard(s);
        let ghost before = shard@;
        let r = shard.start_lease(namespace, key, lease_ttl_ms);
        let ghost now = choose|now: u64| (r@, shard@) == #[trigger] start_lease_at(before, namespace@, key@, lease_ttl_ms, now);
        self.restore(s, shard, Ghost(m0));
        assert((r@, self@) == sharded_start_lease_at(m0, namespace@, key@, lease_ttl_ms, now));
        proof {
            crate::directory::law_start_lease_keeps_directory(m0, namespace@, key@, lease_ttl_ms, now);
        }
        r
    }

    /// Deletes an id on its shard; when an entry went, the directory stops
    /// routing its tags that the shard no longer holds.
    pub fn delete(&mut self, namespace: &str, key: &[u8]) -> (r: bool)
        requires
            old(self).wf(),
        ensures
            final(self).wf(),
            (r, final(self)@) == sharded_delete(old(self)@, namespace@, key@),
    {
        let ghost m0 = self@;
        let s = self.shard_index_for(namespace, key);
        let mut shard = self.take_shard(s);
        let old_tags = shard.tag_ids_for_entry(namespace, key);
        let removed = shard.delete(namespace, key);
        let remove = stale_tags_exec(&old_tags, &shard, namespace);
        self.restore(s, shard, Ghost(m0));
        if removed {
            let add: Vec<String> = Vec::new();
            assert(strings_view(add@) =~= Seq::<Seq<char>>::empty());
            self.update_tag_routes(s, namespace, &add, &remove);
            proof {
                lemma_update_routes_wf(m0.routes, s, namespace@, Seq::empty(), strings_view(remove@), m0.shards.len());
            }
        }
        proof {
            crate::directory::law_delete_keeps_directory(m0, namespace@, key@);
        }
        removed
    }

    /// Reads several keys of a namespace, each now on its shard and counted
    /// as an access.
    pub fn batch_get(&mut self, namespace: &str, keys: &[Vec<u8>]) -> (r: Vec<GetOutcome>)
        requires
            old(self).wf(),
        ensures
            final(self).wf(),
            exists|times: Seq<u64>|
                times.len() == keys@.len() && (outcomes_view(r@), final(self)@) == #[trigger] sharded_batch_get_at(
                    old(self)@,
                    namespace@,
                    keys_view(keys@),
                    times,
                ),
    {
        let ghost kv = keys_view(keys@);
        let ghost mut times: Seq<u64> = Seq::empty();
        let mut out: Vec<GetOutcome> = Vec::new();
        let mut i: usize = 0;
        assert(kv.take(0) =~= Seq::<Seq<u8>>::empty());
        assert(outcomes_view(out@) =~= Seq::<GetModel>::empty());
        while i < keys.len()
            invariant
                self.wf(),
                kv == keys_view(keys@),
                0 <= i <= keys@.len(),
                times.len() == i,
                (outcomes_view(out@), self@) == sharded_batch_get_at(old(self)@, namespace@, kv.take(i as int), times),
            decreases keys@.len() - i,
        {
            let ghost before = self@;
            let g = self.get(namespace, keys[i].as_slice());
            let ghost now = choose|now: u64| (g@, self@) == #[trigger] sharded_get_at(before, namespace@, keys@[i as int]@, now, true);
            let ghost prev = out@;
            out.push(g);
            proof {
                let t1 = times.push(now);
                assert(kv.take(i as int + 1).drop_last() =~= kv.take(i as int));
                assert(kv.take(i as int + 1).last() == keys@[i as int]@);
                assert(t1.drop_last() =~= times);
                assert(outcomes_view(out@) =~= outcomes_view(prev).push(g@));
                times = t1;
            }
            i = i + 1;
        }
        assert(kv.take(keys@.len() as int) =~= kv);
        out
    }

    /// Invalidates a tag of a namespace on the shards its route names; the
    /// route goes. How many entries went, saturating at `usize::MAX`.
    pub fn invalidate_tag(&mut self, namespace: &str, tag: &str) -> (r: usize)
        requires
            old(self).wf(),
        ensures
            final(self).wf(),
            r == cap_usize(sharded_invalidate(old(self)@, namespace@, tag@).0),
            final(self)@ == sharded_invalidate(old(self)@, namespace@, tag@).1,
            forall|k: int|
                0 <= k < final(self)@.shards.len() ==> !shard_has_tag(
                    #[trigger] final(self)@.shards[k],
                    namespace@,
                    tag@,
                ),
    {
        let ghost m0 = self@;
        proof {
            crate::directory::law_invalidate_clears_every_shard(m0, namespace@, tag@);
        }
        let i = match self.route_position(namespace, tag) {
            None => {
                return 0;
            },
            Some(i) => i,
        };
        let route = self.routes.remove(i);
        assert(route@ == m0.routes[i as int]);
        assert(self@.routes =~= m0.routes.remove(i as int));
        assert(routes_wf(self@.routes, m0.shards.len())) by {
            let rr = m0.routes.remove(i as int);
            assert forall|a: int, b: int|
                0 <= a < rr.len() && 0 <= b < rr[a].shards.len() implies #[trigger] rr[a].shards[b]
                < m0.shards.len() by {
                if a < i {
                    assert(rr[a] == m0.routes[a]);
                } else {
                    assert(rr[a] == m0.routes[a + 1]);
                }
            }
        }
        let ghost ks = route@.shards;
        assert(forall|j: int| 0 <= j < ks.len() ==> #[trigger] ks[j] < m0.shards.len()) by {
            assert forall|j: int| 0 <= j < ks.len() implies #[trigger] ks[j] < m0.shards.len() by {
                assert(m0.routes[i as int].shards[j] < m0.shards.len());
            }
        }
        let ghost mut c: nat = 0;
        let mut total: usize = 0;
        let mut j: usize = 0;
        assert(ks.take(0) =~= Seq::<usize>::empty());
        while j < route.shards.len()
            invariant
                ks == route@.shards,
                forall|q: int| 0 <= q < ks.len() ==> #[trigger] ks[q] < m0.shards.len(),
                0 <= j <= ks.len(),
                self@.routes == m0.routes.remove(i as int),
                self@.limits == m0.limits,
                self@.shards.len() == m0.shards.len(),
                self.parts_wf(),
                (c, self@.shards) == invalidate_on(m0.shards, ks.take(j as int), namespace@, tag@),
                total == cap_usize(c),
            decreases ks.len() - j,
        {
            let k = route.shards[j];
            let ghost mk = self@;
            let mut shard = self.take_shard(k);
            let removed = shard.invalidate_tag(namespace, tag);
            self.restore(k, shard, Ghost(mk));
            total = total.saturating_add(removed);
            proof {
                assert(ks.take(j as int + 1).drop_last() =~= ks.take(j as int));
                assert(ks.take(j as int + 1).last() == k);
                c = c + removed as nat;
            }
            j = j + 1;
        }
        assert(ks.take(ks.len() as int) =~= ks);
        proof {
            crate::directory::law_invalidate_clears_every_shard(m0, namespace@, tag@);
        }
        total
    }

    /// The number of stored entries over all shards, saturating at
    /// `usize::MAX`.
    pub fn len(&self) -> (r: usize)
        ensures
            r == cap_usize(total_len(self@.shards)),
    {
        let ghost sh = self@.shards;
        let mut total: usize = 0;
        let mut k: usize = 0;
        assert(sh.take(0) =~= Seq::<EngineModel>::empty());
        while k < self.shards.len()
            invariant
                sh == self@.shards,
                0 <= k <= sh.len(),
                total == cap_usize(total_len(sh.take(k as int))),
            decreases sh.len() - k,
        {
            assert(sh.take(k as int + 1).drop_last() =~= sh.take(k as int));
            assert(sh[k as int] == self.shards@[k as int]@);
            total = total.saturating_add(self.shards[k].len());
            k = k + 1;
        }
        assert(sh.take(sh.len() as int) =~= sh);
        total
    }

    /// Whether no shard stores an entry.
    pub fn is_empty(&self) -> (r: bool)
        ensures
            r == (total_len(self@.shards) == 0),
    {
        self.len() == 0
    }

    /// The memory in use over all shards, saturating at `usize::MAX`.
    pub fn memory_used_bytes(&self) -> (r: usize)
        ensures
            r == cap_usize(total_memory(self@.shards)),
    {
        let ghost sh = self@.shards;
        let mut total: usize = 0;
        let mut k: usize = 0;
        assert(sh.take(0) =~= Seq::<EngineModel>::empty());
        while k < self.shards.len()
            invariant
                sh == self@.shards,
                0 <= k <= sh.len(),
                total == cap_usize(total_memory(sh.take(k as int))),
            decreases sh.len() - k,
        {
            assert(sh.take(k as int + 1).drop_last() =~= sh.take(k as int));
            assert(sh[k as int] == self.shards@[k as int]@);
            total = total.saturating_add(self.shards[k].memory_used_bytes());
            k = k + 1;
        }
        assert(sh.take(sh.len() as int) =~= sh);
        total
    }

    /// The cost scores over all shards, saturating at `u64::MAX`.
    pub fn cost_score_total(&self) -> (r: u64)
        ensures
            r == cap_u64(total_cost(self@.shards)),
    {
        let ghost sh = self@.shards;
        let mut total: u64 = 0;
        let mut k: usize = 0;
        assert(sh.take(0) =~= Seq::<EngineModel>::empty());
        while k < self.shards.len()
            invariant
                sh == self@.shards,
                0 <= k <= sh.len(),
                total == cap_u64(total_cost(sh.take(k as int))),
            decreases sh.len() - k,
        {
            assert(sh.take(k as int + 1).drop_last() =~= sh.take(k as int));
            assert(sh[k as int] == self.shards@[k as int]@);
            total = total.saturating_add(self.shards[k].cost_score_total());
            k = k + 1;
        }
        assert(sh.take(sh.len() as int) =~= sh);
        total
    }

    /// The limits the engine was made with.
    pub fn limits(&self) -> (r: EngineLimits)
        ensures
            r == self@.limits,
    {
        self.limits
    }

    /// The shards' expiration and eviction counters added up.
    pub fn stats(&self) -> (r: EngineStats)
        ensures
            r == total_stats(self@.shards),
    {
        let ghost sh = self@.shards;
        let mut total = EngineStats { expirations: 0, evictions: 0 };
        let mut k: usize = 0;
        assert(sh.take(0) =~= Seq::<EngineModel>::empty());
        while k < self.shards.len()
            invariant
                sh == self@.shards,
                0 <= k <= sh.len(),
                total == total_stats(sh.take(k as int)),
            decreases sh.len() - k,
        {
            assert(sh.take(k as int + 1).drop_last() =~= sh.take(k as int));
            assert(sh[k as int] == self.shards@[k as int]@);
            let st = self.shards[k].stats();
            total = EngineStats {
                expirations: total.expirations.saturating_add(st.expirations),
                evictions: total.evictions.saturating_add(st.evictions),
            };
            k = k + 1;
        }
        assert(sh.take(sh.len() as int) =~= sh);
        total
    }

    /// Reclaims up to `max_entries` expired entries, shard by shard, each
    /// shard now; how many.
    pub fn reclaim_expired_budget(&mut self, max_entries: usize) -> (r: usize)
        requires
            old(self).wf(),
        ensures
            final(self).wf(),
            exists|times: Seq<u64>|
                times.len() == old(self)@.shards.len() && (r as nat, final(self)@.shards) == #[trigger] reclaim_shards(
                    old(self)@.shards,
                    max_entries as nat,
                    times,
                    old(self)@.shards.len(),
                ),
            final(self)@.routes == old(self)@.routes,
            final(self)@.limits == old(self)@.limits,
            r <= max_entries,
    {
        let ghost m0 = self@;
        let ghost mut times: Seq<u64> = Seq::empty();
        let mut removed: usize = 0;
        let mut remaining: usize = max_entries;
        let mut k: usize = 0;
        while k < self.shards.len()
            invariant
                self.parts_wf(),
                self@.routes == m0.routes,
                self@.limits == m0.limits,
                self@.shards.len() == m0.shards.len(),
                0 <= k <= m0.shards.len(),
                times.len() == k,
                removed + remaining == max_entries,
                (removed as nat, self@.shards) == reclaim_shards(m0.shards, max_entries as nat, times, k as nat),
            decreases m0.shards.len() - k,
        {
            if remaining == 0 {
                proof {
                    lemma_reclaim_shards_prefix(m0.shards, max_entries as nat, times, times.push(0), k as nat);
                    times = times.push(0);
                }
            } else {
                let ghost mk = self@;
                let mut shard = self.take_shard(k);
                let ghost before = shard@;
                let got = shard.reclaim_expired_budget(remaining);
                let ghost now = choose|now: u64| (got as nat, shard@) == #[trigger] reclaim(before, now, remaining as nat);
                proof {
                    crate::engine::lemma_reclaim_le_budget(before, now, remaining as nat);
                }
                self.restore(k, shard, Ghost(mk));
                removed = removed + got;
                remaining = remaining - got;
                proof {
                    let t1 = times.push(now);
                    lemma_reclaim_shards_prefix(m0.shards, max_entries as nat, times, t1, k as nat);
                    times = t1;
                }
            }
            k = k + 1;
        }
        proof {
            crate::directory::law_reclaim_keeps_directory(m0, max_entries as nat, times);
            assert(self@ == (ShardedModel {
                shards: reclaim_shards(m0.shards, max_entries as nat, times, m0.shards.len()).1,
                ..m0
            }));
        }
        removed
    }

    /// How many shards a tag of a namespace is routed to.
    pub fn routed_shard_count_for_tag(&self, namespace: &str, tag: &str) -> (r: usize)
        ensures
            r == (if route_index(self@.routes, namespace@, tag@) >= 0 {
                self@.routes[route_index(self@.routes, namespace@, tag@)].shards.len()
            } else {
                0
            }),
    {
        match self.route_position(namespace, tag) {
            Some(i) => {
                assert(self@.routes[i as int] == self.routes@[i as int]@);
                self.routes[i].shards.len()
            },
            None => 0,
        }
    }

    /// Stops routing shard `s` for the tags in `remove`, then routes it for
    /// the tags in `add`.
    fn update_tag_routes(&mut self, s: usize, ns: &str, add: &Vec<String>, remove: &Vec<String>)
        ensures
            final(self)@ == (ShardedModel {
                routes: update_routes(
                    old(self)@.routes,
                    s,
                    ns@,
                    strings_view(add@),
                    strings_view(remove@),
                ),
                ..old(self)@
            }),
    {
        let ghost rv = strings_view(remove@);
        let ghost av = strings_view(add@);
        let ghost m0 = self@;
        let mut i: usize = 0;
        assert(rv.take(0) =~= Seq::<Seq<char>>::empty());
        while i < remove.len()
            invariant
                rv == strings_view(remove@),
                0 <= i <= remove@.len(),
                self@ == (ShardedModel {
                    routes: unroute_all(m0.routes, s, ns@, rv.take(i as int)),
                    ..m0
                }),
            decreases remove@.len() - i,
        {
            assert(rv.take(i as int + 1).drop_last() =~= rv.take(i as int));
            assert(rv.take(i as int + 1).last() == remove@[i as int]@);
            self.unroute_exec(s, ns, remove[i].as_str());
            i = i + 1;
        }
        assert(rv.take(remove@.len() as int) =~= rv);
        let ghost m1 = self@;
        let mut j: usize = 0;
        assert(av.take(0) =~= Seq::<Seq<char>>::empty());
        while j < add.len()
            invariant
                av == strings_view(add@),
                0 <= j <= add@.len(),
                self@ == (ShardedModel {
                    routes: route_all(m1.routes, s, ns@, av.take(j as int)),
                    ..m1
                }),
            decreases add@.len() - j,
        {
            assert(av.take(j as int + 1).drop_last() =~= av.take(j as int));
            assert(av.take(j as int + 1).last() == add@[j as int]@);
            self.route_to_exec(s, ns, add[j].as_str());
            j = j + 1;
        }
        assert(av.take(add@.len() as int) =~= av);
    }
}

// ---------------------------------------------------------------------------
// Laws.
// ---------------------------------------------------------------------------

/// Every shard keeps the engine's invariant.
pub open spec fn shards_wf(m: ShardedModel) -> bool {
    &&& m.shards.len() > 0
    &&& forall|k: int| 0 <= k < m.shards.len() ==> engine_wf(#[trigger] m.shards[k])
}

/// Read after write on the sharded engine: a value written at `now` is read
/// back at `now`, the read going to the shard the write went to.
pub proof fn law_sharded_put_then_get(m: ShardedModel, c: PutModel, now: u64)
    requires
        shards_wf(m),
        sharded_put_at(m, c, now).0 is Ok,
    ensures
        sharded_get_at(sharded_put_at(m, c, now).1, c.namespace, c.key, now, true).0 == GetModel::Hit(
            c.value,
        ),
{
    let s = shard_of(c.namespace, c.key, m.shards.len());
    crate::engine_laws::law_put_then_get(m.shards[s], c, now, true);
}

/// After a delete on the sharded engine nothing is read under the id.
pub proof fn law_sharded_delete_then_get(m: ShardedModel, ns: Seq<char>, key: Seq<u8>, now: u64)
    requires
        shards_wf(m),
    ensures
        sharded_get_at(sharded_delete(m, ns, key).1, ns, key, now, true).0 == GetModel::Miss,
{
    let s = shard_of(ns, key, m.shards.len());
    crate::engine_laws::law_delete_then_get(m.shards[s], ns, key, now, true);
}

/// Requests on one id touch only the shard of that id: a write, a lease
/// completion, a read, a lease request and a delete on it leave every other
/// shard as it was.
pub proof fn law_other_shards_untouched(m: ShardedModel, c: PutModel, now: u64, k: int)
    requires
        shards_wf(m),
        0 <= k < m.shards.len(),
        k != shard_of(c.namespace, c.key, m.shards.len()),
    ensures
        sharded_put_at(m, c, now).1.shards[k] == m.shards[k],
        forall|token: Seq<char>|
            #[trigger] sharded_complete_lease_at(m, CompleteLeaseModel { token, put: c }, now).1.shards[k]
                == m.shards[k],
        forall|update_access: bool|
            #[trigger] sharded_get_at(m, c.namespace, c.key, now, update_access).1.shards[k]
                == m.shards[k],
        forall|ttl: u64| #[trigger] sharded_start_lease_at(m, c.namespace, c.key, ttl, now).1.shards[k] == m.shards[k],
        sharded_delete(m, c.namespace, c.key).1.shards[k] == m.shards[k],
{
}

/// With one shard, the sharded engine is the engine: every request on an
/// id gives what the engine gives, and leaves its one shard as the engine
/// is left.
pub proof fn law_one_shard_is_the_engine(m: ShardedModel, c: PutModel, now: u64, update_access: bool, ttl: u64)
    requires
        m.shards.len() == 1,
    ensures
        sharded_put_at(m, c, now).0 == put_at(m.shards[0], c, now).0,
        sharded_put_at(m, c, now).1.shards[0] == put_at(m.shards[0], c, now).1,
        sharded_get_at(m, c.namespace, c.key, now, update_access).0 == get_at(
            m.shards[0],
            c.namespace,
            c.key,
            now,
            update_access,
        ).0,
        sharded_get_at(m, c.namespace, c.key, now, update_access).1.shards[0] == get_at(
            m.shards[0],
            c.namespace,
            c.key,
            now,
            update_access,
        ).1,
        sharded_start_lease_at(m, c.namespace, c.key, ttl, now).0 == start_lease_at(
            m.shards[0],
            c.namespace,
            c.key,
            ttl,
            now,
        ).0,
        sharded_delete(m, c.namespace, c.key).0 == delete(m.shards[0], c.namespace, c.key).0,
        sharded_delete(m, c.namespace, c.key).1.shards[0] == delete(m.shards[0], c.namespace, c.key).1,
{
    let x = default_hash(c.namespace, c.key) as usize as int;
    assert(x % 1 == 0);
    assert(shard_of(c.namespace, c.key, 1) == 0);
}

/// A lease is granted to one caller at a time on the sharded engine too:
/// while a granted lease runs, a read of any id in between leaves the next
/// request on the id served a value or denied, never granted.
pub proof fn law_sharded_lease_outlives_read(
    m: ShardedModel,
    ns: Seq<char>,
    key: Seq<u8>,
    ttl: u64,
    now: u64,
    read_ns: Seq<char>,
    read_key: Seq<u8>,
    read_at: u64,
    ttl2: u64,
    later: u64,
)
    requires
        m.shards.len() > 0,
        sharded_start_lease_at(m, ns, key, ttl, now).0 is Granted,
        now <= later <= crate::engine::sat_add_u64(now as int, ttl as int),
    ensures
        ({
            let m1 = sharded_start_lease_at(m, ns, key, ttl, now).1;
            let m2 = sharded_get_at(m1, read_ns, read_key, read_at, true).1;
            !(sharded_start_lease_at(m2, ns, key, ttl2, later).0 is Granted)
        }),
{
    let n = m.shards.len();
    let s = shard_of(ns, key, n);
    let r = shard_of(read_ns, read_key, n);
    let m1 = sharded_start_lease_at(m, ns, key, ttl, now).1;
    crate::engine_laws::law_lease_outlives_read(m.shards[s], ns, key, ttl, now, read_ns, read_key, read_at, true, ttl2, later);
    if r != s {
        let m2 = sharded_get_at(m1, read_ns, read_key, read_at, true).1;
        assert(m2.shards[s] == m1.shards[s]);
        crate::engine_laws::law_lease_granted_once(m.shards[s], ns, key, ttl, now, ttl2, later);
    }
}

} // verus!
