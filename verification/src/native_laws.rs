//! What the native protocol promises across requests: a value put is read
//! back by its own time to live and stale window, a lease request on a
//! stale value hands the stale value to the lease holder, a lease
//! completion writes as a put does, and a delete says whether it removed
//! something.

use vstd::prelude::*;
use crate::engine::{lease_index, sat_add_u64};
use crate::native::{native_exec, native_exec_view};
use crate::protocol::{BatchItemModel, Metadata, RequestPayload, RequestPayloadView, ResponseModel};
use crate::sharded::{shard_of, shards_wf, ShardedModel};

verus! {

proof fn lemma_shard_in_range(ns: Seq<char>, key: Seq<u8>, n: nat)
    requires
        n > 0,
    ensures
        0 <= shard_of(ns, key, n) < n,
{
    let x = crate::sharded::default_hash(ns, key) as usize as int;
    assert(0 <= x % (n as int) < n) by (nonlinear_arith)
        requires
            n > 0,
            x >= 0,
    ;
}

/// What a read at `later` answers for a value put at `now` with time to
/// live `ttl` and stale window `stale_ttl`: the value while fresh (or
/// forever without a time to live), the value as stale within the stale
/// window, and a miss after.
pub open spec fn read_after_put(
    value: Seq<u8>,
    ttl: Option<crate::api::Ttl>,
    stale_ttl: Option<crate::api::Ttl>,
    now: u64,
    later: u64,
) -> ResponseModel {
    match ttl {
        None => ResponseModel::Hit(value),
        Some(t) => {
            let x = sat_add_u64(now as int, t.milliseconds as int);
            if later <= x {
                ResponseModel::Hit(value)
            } else {
                match stale_ttl {
                    Some(st) => if later <= sat_add_u64(x as int, st.milliseconds as int) {
                        ResponseModel::Stale(value)
                    } else {
                        ResponseModel::Miss
                    },
                    None => ResponseModel::Miss,
                }
            }
        },
    }
}

/// A value put over the native protocol is read back by the time to live
/// and stale window the request carried: a native get at `later` of a value
/// stored at `now` answers a hit up to the expiry, stale within the stale
/// window, and a miss after it; no other value is answered.
pub proof fn law_native_put_then_get(
    m: ShardedModel,
    ns: String,
    key: Vec<u8>,
    md: Metadata,
    value: Vec<u8>,
    now: u64,
    later: u64,
)
    requires
        shards_wf(m),
        native_exec(m, RequestPayload::Put { namespace: ns, key: key, metadata: md, value: value }, seq![now]).0 is Stored,
    ensures
        ({
            let m1 = native_exec(
                m,
                RequestPayload::Put { namespace: ns, key: key, metadata: md, value: value },
                seq![now],
            ).1;
            native_exec(m1, RequestPayload::Get { namespace: ns, key: key }, seq![later]).0
                == read_after_put(value@, md.ttl, md.stale_ttl, now, later)
        }),
{
    let n = m.shards.len();
    let s = shard_of(ns@, key@, n);
    lemma_shard_in_range(ns@, key@, n);
    let c = crate::native::put_model(ns@, key@, md, value@);
    crate::engine_laws::law_put_then_get_later(m.shards[s], c, now, later, true);
}

/// The borrowed form of a native get answers as the owned form does.
pub proof fn law_native_get_forms_agree(m: ShardedModel, ns: &str, key: &[u8], owned_ns: String, owned_key: Vec<u8>, now: u64)
    requires
        owned_ns@ == ns@,
        owned_key@ == key@,
    ensures
        native_exec_view(m, RequestPayloadView::Get { namespace: ns, key: key }, now) == native_exec(
            m,
            RequestPayload::Get { namespace: owned_ns, key: owned_key },
            seq![now],
        ),
{
}

/// A lease completion over the native protocol writes the value by the
/// time to live and stale window it carried: a native get at `later` of a
/// value stored at `now` by a completion answers as after a put.
pub proof fn law_native_complete_then_get(
    m: ShardedModel,
    ns: String,
    key: Vec<u8>,
    token: String,
    md: Metadata,
    value: Vec<u8>,
    now: u64,
    later: u64,
)
    requires
        shards_wf(m),
        native_exec(
            m,
            RequestPayload::LeaseComplete { namespace: ns, key: key, lease_token: token, metadata: md, value: value },
            seq![now],
        ).0 is Stored,
    ensures
        ({
            let m1 = native_exec(
                m,
                RequestPayload::LeaseComplete { namespace: ns, key: key, lease_token: token, metadata: md, value: value },
                seq![now],
            ).1;
            native_exec(m1, RequestPayload::Get { namespace: ns, key: key }, seq![later]).0
                == read_after_put(value@, md.ttl, md.stale_ttl, now, later)
        }),
{
    let n = m.shards.len();
    let s = shard_of(ns@, key@, n);
    lemma_shard_in_range(ns@, key@, n);
    let c = crate::engine::CompleteLeaseModel {
        token: token@,
        put: crate::native::put_model(ns@, key@, md, value@),
    };
    crate::engine_laws::law_complete_then_get_later(m.shards[s], c, now, later, true);
}

/// A lease request over the native protocol on a value put at `now`, no
/// lease having been recorded on its id: while the value is fresh it is
/// served; within its stale window the caller is granted the lease and
/// handed the stale value to serve meanwhile; once expired the caller is
/// granted the lease with no value.
pub proof fn law_native_put_then_lease_start(
    m: ShardedModel,
    ns: String,
    key: Vec<u8>,
    md: Metadata,
    value: Vec<u8>,
    now: u64,
    later: u64,
    lease_ttl_ms: u64,
    allow_stale_ms: Option<u64>,
)
    requires
        shards_wf(m),
        native_exec(m, RequestPayload::Put { namespace: ns, key: key, metadata: md, value: value }, seq![now]).0 is Stored,
        lease_index(m.shards[shard_of(ns@, key@, m.shards.len())].leases, ns@, key@) == -1,
    ensures
        ({
            let m1 = native_exec(
                m,
                RequestPayload::Put { namespace: ns, key: key, metadata: md, value: value },
                seq![now],
            ).1;
            let r = native_exec(
                m1,
                RequestPayload::LeaseStart { namespace: ns, key: key, lease_ttl_ms, allow_stale_ms },
                seq![later],
            ).0;
            match read_after_put(value@, md.ttl, md.stale_ttl, now, later) {
                ResponseModel::Hit(v) => r == ResponseModel::Hit(v),
                ResponseModel::Stale(v) => (r matches ResponseModel::LeaseGranted { stale_value, .. }
                    && stale_value == Some(v)),
                _ => (r matches ResponseModel::LeaseGranted { stale_value, .. } && stale_value is None),
            }
        }),
{
    let n = m.shards.len();
    let s = shard_of(ns@, key@, n);
    lemma_shard_in_range(ns@, key@, n);
    let c = crate::native::put_model(ns@, key@, md, value@);
    crate::engine_laws::law_put_then_lease_start_later(m.shards[s], c, now, later, lease_ttl_ms);
}

/// A native delete says whether it removed something: after a value is
/// stored, deleting its id answers `removed: true`; when the id's shard
/// holds no entry with that id the answer is `removed: false`; and a second
/// delete of an id always answers `removed: false`.
pub proof fn law_native_delete_reports_removal(
    m: ShardedModel,
    ns: String,
    key: Vec<u8>,
    md: Metadata,
    value: Vec<u8>,
    now: u64,
)
    requires
        shards_wf(m),
    ensures
        native_exec(m, RequestPayload::Put { namespace: ns, key: key, metadata: md, value: value }, seq![now]).0 is Stored
            ==> native_exec(
            native_exec(m, RequestPayload::Put { namespace: ns, key: key, metadata: md, value: value }, seq![now]).1,
            RequestPayload::Delete { namespace: ns, key: key },
            seq![now],
        ).0 == (ResponseModel::Deleted { removed: true }),
        (forall|j: int|
            0 <= j < m.shards[shard_of(ns@, key@, m.shards.len())].entries.len() ==> !(
            (#[trigger] m.shards[shard_of(ns@, key@, m.shards.len())].entries[j]).namespace == ns@
                && m.shards[shard_of(ns@, key@, m.shards.len())].entries[j].key == key@))
            ==> native_exec(m, RequestPayload::Delete { namespace: ns, key: key }, seq![now]).0 == (
            ResponseModel::Deleted { removed: false }),
        native_exec(
            native_exec(m, RequestPayload::Delete { namespace: ns, key: key }, seq![now]).1,
            RequestPayload::Delete { namespace: ns, key: key },
            seq![now],
        ).0 == (ResponseModel::Deleted { removed: false }),
{
    let n = m.shards.len();
    let s = shard_of(ns@, key@, n);
    lemma_shard_in_range(ns@, key@, n);
    let c = crate::native::put_model(ns@, key@, md, value@);
    crate::engine_laws::law_delete_reports_removal(m.shards[s], c, now, ns@, key@);
}

/// The borrowed form of a native delete answers as the owned form does:
/// `removed` says whether an entry with the id was stored.
pub proof fn law_native_delete_forms_agree(m: ShardedModel, ns: &str, key: &[u8], owned_ns: String, owned_key: Vec<u8>, now: u64)
    requires
        owned_ns@ == ns@,
        owned_key@ == key@,
    ensures
        native_exec_view(m, RequestPayloadView::Delete { namespace: ns, key: key }, now) == native_exec(
            m,
            RequestPayload::Delete { namespace: owned_ns, key: owned_key },
            seq![now],
        ),
{
}


/// One client refreshes a value at a time over the native protocol: while
/// a lease granted at `now` runs, a native get of any id in between, even
/// one that finds the value expired, leaves the next lease request on the
/// id answered with a value, a stale value or a denial, never a grant.
pub proof fn law_native_lease_granted_once(
    m: ShardedModel,
    ns: String,
    key: Vec<u8>,
    ttl: u64,
    allow1: Option<u64>,
    now: u64,
    read_ns: String,
    read_key: Vec<u8>,
    read_at: u64,
    ttl2: u64,
    allow2: Option<u64>,
    later: u64,
)
    requires
        m.shards.len() > 0,
        native_exec(
            m,
            RequestPayload::LeaseStart { namespace: ns, key: key, lease_ttl_ms: ttl, allow_stale_ms: allow1 },
            seq![now],
        ).0 is LeaseGranted,
        now <= later <= sat_add_u64(now as int, ttl as int),
    ensures
        ({
            let m1 = native_exec(
                m,
                RequestPayload::LeaseStart { namespace: ns, key: key, lease_ttl_ms: ttl, allow_stale_ms: allow1 },
                seq![now],
            ).1;
            let m2 = native_exec(m1, RequestPayload::Get { namespace: read_ns, key: read_key }, seq![read_at]).1;
            let r = native_exec(
                m2,
                RequestPayload::LeaseStart { namespace: ns, key: key, lease_ttl_ms: ttl2, allow_stale_ms: allow2 },
                seq![later],
            ).0;
            r is Hit || r is Stale || r is LeaseDenied
        }),
{
    crate::sharded::law_sharded_lease_outlives_read(m, ns@, key@, ttl, now, read_ns@, read_key@, read_at, ttl2, later);
}

/// A batch of one key answers as a get of that key: a hit, a stale value or
/// a miss, with the same value, and leaves the engine as the get does.
pub proof fn law_native_batch_of_one_is_a_get(
    m: ShardedModel,
    ns: String,
    keys: Vec<Vec<u8>>,
    key: Vec<u8>,
    now: u64,
)
    requires
        keys@.len() == 1,
        keys@[0]@ == key@,
    ensures
        ({
            let (b, mb) = native_exec(m, RequestPayload::BatchGet { namespace: ns, keys: keys }, seq![now]);
            let (g, mg) = native_exec(m, RequestPayload::Get { namespace: ns, key: key }, seq![now]);
            &&& mb == mg
            &&& match g {
                ResponseModel::Hit(v) => b == ResponseModel::BatchGet { items: seq![BatchItemModel::Hit(v)] },
                ResponseModel::Stale(v) => b == ResponseModel::BatchGet { items: seq![BatchItemModel::Stale(v)] },
                _ => b == ResponseModel::BatchGet { items: seq![BatchItemModel::Miss] },
            }
        }),
{
    let ks = crate::engine::keys_view(keys@);
    assert(ks.len() == 1);
    assert(ks.drop_last() =~= Seq::<Seq<u8>>::empty());
    assert(ks.last() == key@);
    let ts = seq![now];
    assert(ts.drop_last() =~= Seq::<u64>::empty());
    assert(ts.last() == now);
    let e = crate::sharded::sharded_batch_get_at(m, ns@, ks.drop_last(), ts.drop_last());
    assert(e == (Seq::<crate::engine::GetModel>::empty(), m));
    let (g0, m2) = crate::sharded::sharded_get_at(m, ns@, key@, now, true);
    assert(crate::sharded::sharded_batch_get_at(m, ns@, ks, ts) == (Seq::<crate::engine::GetModel>::empty().push(g0), m2));
    let gs = Seq::<crate::engine::GetModel>::empty().push(g0);
    assert(gs.map_values(|g: crate::engine::GetModel| crate::native::batch_item(g)) =~= seq![crate::native::batch_item(gs[0])]);
}

} // verus!
