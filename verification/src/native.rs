//! The native data plane: framing of the byte stream, execution of decoded
//! requests against the sharded engine, and request metrics.

use vstd::prelude::*;
use crate::bytes::{text_bytes, text_eq, u32_of_be, u64_of_be};
use crate::text::{append_decimal, decimal};
use crate::api::{HEALTH_ROUTE, METRICS_ROUTE};
use crate::engine::{
    keys_view, outcomes_view, Clock, CompleteLeaseCommand, CompleteLeaseError, CompleteLeaseModel,
    EngineStats, GetModel, GetOutcome, PutCommand, PutError, PutModel, PutOutcome, StartLeaseModel,
    StartLeaseOutcome, strings_view,
};
use crate::protocol::{
    command_of_id, batch_items_model, BatchItem, BatchItemModel, Command, DecodeError, ErrorCode, Metadata, ResponseFrameModel, RequestFrame, RequestFrameView,
    RequestModel, RequestPayload, RequestPayloadView, ResponseFrame, ResponseModel, ResponsePayload, HEADER_LEN,
};
use crate::sharded::{
    cap_usize, sharded_batch_get_at, sharded_complete_lease_at, sharded_delete, sharded_get_at,
    sharded_invalidate, sharded_put_at, sharded_start_lease_at, ShardedEngine, ShardedModel,
};

verus! {

pub const METRIC_SHARD_COUNT: usize = 64;

/// The counters read at one moment; also what one request adds to them.
#[derive(Debug, Clone, Copy, PartialEq, Eq, Structural)]
pub struct MetricsSnapshot {
    pub requests_total: u64,
    pub health_requests: u64,
    pub get_requests: u64,
    pub put_requests: u64,
    pub delete_requests: u64,
    pub batch_get_requests: u64,
    pub tag_invalidate_requests: u64,
    pub hits_total: u64,
    pub misses_total: u64,
    pub stale_total: u64,
    pub lease_grants: u64,
    pub lease_denials: u64,
    pub errors_total: u64,
}

/// All counters zero.
pub open spec fn zero_snapshot() -> MetricsSnapshot {
    MetricsSnapshot {
        requests_total: 0,
        health_requests: 0,
        get_requests: 0,
        put_requests: 0,
        delete_requests: 0,
        batch_get_requests: 0,
        tag_invalidate_requests: 0,
        hits_total: 0,
        misses_total: 0,
        stale_total: 0,
        lease_grants: 0,
        lease_denials: 0,
        errors_total: 0,
    }
}

pub open spec fn sat(a: u64, b: u64) -> u64 {
    if a + b > u64::MAX {
        u64::MAX
    } else {
        (a + b) as u64
    }
}

/// `a + b` modulo 2^64, as a counter that wraps.
pub open spec fn wrap(a: u64, b: u64) -> u64 {
    if a + b > u64::MAX {
        (a + b - 18446744073709551616int) as u64
    } else {
        (a + b) as u64
    }
}

/// Two snapshots added counter by counter, each saturating at `u64::MAX`.
pub open spec fn add_snapshots(a: MetricsSnapshot, b: MetricsSnapshot) -> MetricsSnapshot {
    MetricsSnapshot {
        requests_total: sat(a.requests_total, b.requests_total),
        health_requests: sat(a.health_requests, b.health_requests),
        get_requests: sat(a.get_requests, b.get_requests),
        put_requests: sat(a.put_requests, b.put_requests),
        delete_requests: sat(a.delete_requests, b.delete_requests),
        batch_get_requests: sat(a.batch_get_requests, b.batch_get_requests),
        tag_invalidate_requests: sat(a.tag_invalidate_requests, b.tag_invalidate_requests),
        hits_total: sat(a.hits_total, b.hits_total),
        misses_total: sat(a.misses_total, b.misses_total),
        stale_total: sat(a.stale_total, b.stale_total),
        lease_grants: sat(a.lease_grants, b.lease_grants),
        lease_denials: sat(a.lease_denials, b.lease_denials),
        errors_total: sat(a.errors_total, b.errors_total),
    }
}

/// Counts added to counters counter by counter, each counter wrapping.
pub open spec fn count_into(a: MetricsSnapshot, b: MetricsSnapshot) -> MetricsSnapshot {
    MetricsSnapshot {
        requests_total: wrap(a.requests_total, b.requests_total),
        health_requests: wrap(a.health_requests, b.health_requests),
        get_requests: wrap(a.get_requests, b.get_requests),
        put_requests: wrap(a.put_requests, b.put_requests),
        delete_requests: wrap(a.delete_requests, b.delete_requests),
        batch_get_requests: wrap(a.batch_get_requests, b.batch_get_requests),
        tag_invalidate_requests: wrap(a.tag_invalidate_requests, b.tag_invalidate_requests),
        hits_total: wrap(a.hits_total, b.hits_total),
        misses_total: wrap(a.misses_total, b.misses_total),
        stale_total: wrap(a.stale_total, b.stale_total),
        lease_grants: wrap(a.lease_grants, b.lease_grants),
        lease_denials: wrap(a.lease_denials, b.lease_denials),
        errors_total: wrap(a.errors_total, b.errors_total),
    }
}

/// Snapshots added up from all counters zero.
pub open spec fn sum_snapshots(s: Seq<MetricsSnapshot>) -> MetricsSnapshot
    decreases s.len(),
{
    if s.len() == 0 {
        zero_snapshot()
    } else {
        add_snapshots(sum_snapshots(s.drop_last()), s.last())
    }
}

impl Default for MetricsSnapshot {
    fn default() -> (r: Self)
        ensures
            r == zero_snapshot(),
    {
        MetricsSnapshot {
            requests_total: 0,
            health_requests: 0,
            get_requests: 0,
            put_requests: 0,
            delete_requests: 0,
            batch_get_requests: 0,
            tag_invalidate_requests: 0,
            hits_total: 0,
            misses_total: 0,
            stale_total: 0,
            lease_grants: 0,
            lease_denials: 0,
            errors_total: 0,
        }
    }
}

impl MetricsSnapshot {
    /// Adds another snapshot counter by counter, saturating.
    pub fn saturating_add(self, other: Self) -> (r: Self)
        ensures
            r == add_snapshots(self, other),
    {
        MetricsSnapshot {
            requests_total: self.requests_total.saturating_add(other.requests_total),
            health_requests: self.health_requests.saturating_add(other.health_requests),
            get_requests: self.get_requests.saturating_add(other.get_requests),
            put_requests: self.put_requests.saturating_add(other.put_requests),
            delete_requests: self.delete_requests.saturating_add(other.delete_requests),
            batch_get_requests: self.batch_get_requests.saturating_add(other.batch_get_requests),
            tag_invalidate_requests: self.tag_invalidate_requests.saturating_add(
                other.tag_invalidate_requests,
            ),
            hits_total: self.hits_total.saturating_add(other.hits_total),
            misses_total: self.misses_total.saturating_add(other.misses_total),
            stale_total: self.stale_total.saturating_add(other.stale_total),
            lease_grants: self.lease_grants.saturating_add(other.lease_grants),
            lease_denials: self.lease_denials.saturating_add(other.lease_denials),
            errors_total: self.errors_total.saturating_add(other.errors_total),
        }
    }

    /// Adds counts to counters counter by counter, each counter wrapping.
    pub fn wrapping_add(self, counts: Self) -> (r: Self)
        ensures
            r == count_into(self, counts),
    {
        MetricsSnapshot {
            requests_total: self.requests_total.wrapping_add(counts.requests_total),
            health_requests: self.health_requests.wrapping_add(counts.health_requests),
            get_requests: self.get_requests.wrapping_add(counts.get_requests),
            put_requests: self.put_requests.wrapping_add(counts.put_requests),
            delete_requests: self.delete_requests.wrapping_add(counts.delete_requests),
            batch_get_requests: self.batch_get_requests.wrapping_add(counts.batch_get_requests),
            tag_invalidate_requests: self.tag_invalidate_requests.wrapping_add(
                counts.tag_invalidate_requests,
            ),
            hits_total: self.hits_total.wrapping_add(counts.hits_total),
            misses_total: self.misses_total.wrapping_add(counts.misses_total),
            stale_total: self.stale_total.wrapping_add(counts.stale_total),
            lease_grants: self.lease_grants.wrapping_add(counts.lease_grants),
            lease_denials: self.lease_denials.wrapping_add(counts.lease_denials),
            errors_total: self.errors_total.wrapping_add(counts.errors_total),
        }
    }
}

/// Request counters of one metrics shard. Its owner holds it (or the
/// `Metrics` it belongs to) behind whatever lock it shares it with.
pub struct MetricsShard {
    counts: MetricsSnapshot,
}

impl View for MetricsShard {
    type V = MetricsSnapshot;

    closed spec fn view(&self) -> MetricsSnapshot {
        self.counts
    }
}

impl MetricsShard {
    /// A shard with every counter at zero.
    pub fn new() -> (r: Self)
        ensures
            r@ == zero_snapshot(),
    {
        MetricsShard { counts: MetricsSnapshot::default() }
    }

    /// The counters as they read now.
    pub fn snapshot(&self) -> (r: MetricsSnapshot)
        ensures
            r == self@,
    {
        self.counts
    }

    /// Counts what a request adds, each counter wrapping.
    pub fn record(&mut self, counts: MetricsSnapshot)
        ensures
            final(self)@ == count_into(old(self)@, counts),
    {
        self.counts = self.counts.wrapping_add(counts);
    }
}

/// Request metrics spread over shards, so that requests of different
/// connections count on different counters.
pub struct Metrics {
    shards: Vec<MetricsShard>,
}

impl View for Metrics {
    type V = Seq<MetricsSnapshot>;

    closed spec fn view(&self) -> Seq<MetricsSnapshot> {
        self.shards@.map_values(|s: MetricsShard| s@)
    }
}

/// `x` rotated left by 17 bits.
pub open spec fn rotl17(x: u64) -> u64 {
    (x << 17u64) | (x >> 47u64)
}

/// The metrics shard of a request on a connection, among `n`.
pub open spec fn metrics_shard_index(connection_id: u64, request_id: u64, n: nat) -> int {
    ((connection_id ^ rotl17(request_id)) as usize) as int % (n as int)
}

fn mix_index(connection_id: u64, request_id: u64, n: usize) -> (r: usize)
    requires
        n > 0,
    ensures
        r == metrics_shard_index(connection_id, request_id, n as nat),
        r < n,
{
    let rotated = (request_id << 17u64) | (request_id >> 47u64);
    let mixed = connection_id ^ rotated;
    (mixed as usize) % n
}

/// The shards after counting `counts` in shard `i`.
pub open spec fn counted_in(ms: Seq<MetricsSnapshot>, i: int, counts: MetricsSnapshot) -> Seq<
    MetricsSnapshot,
> {
    ms.update(i, count_into(ms[i], counts))
}

impl Default for Metrics {
    fn default() -> (r: Self)
        ensures
            r@ == Seq::new(METRIC_SHARD_COUNT as nat, |i: int| zero_snapshot()),
    {
        let mut shards: Vec<MetricsShard> = Vec::new();
        let mut k: usize = 0;
        while k < METRIC_SHARD_COUNT
            invariant
                0 <= k <= METRIC_SHARD_COUNT,
                shards@.len() == k,
                forall|j: int| 0 <= j < k ==> (#[trigger] shards@[j])@ == zero_snapshot(),
            decreases METRIC_SHARD_COUNT - k,
        {
            shards.push(MetricsShard::new());
            k = k + 1;
        }
        let r = Metrics { shards };
        assert(r@ =~= Seq::new(METRIC_SHARD_COUNT as nat, |i: int| zero_snapshot()));
        r
    }
}

impl Metrics {
    /// How many shards there are.
    pub open spec fn shard_count(&self) -> nat {
        self@.len()
    }

    /// The shard that counts a request of a connection.
    pub fn shard_for_request(&self, connection_id: u64, request_id: u64) -> (r: &MetricsShard)
        requires
            self.shard_count() > 0,
        ensures
            r@ == self@[metrics_shard_index(connection_id, request_id, self.shard_count())],
    {
        let i = mix_index(connection_id, request_id, self.shards.len());
        &self.shards[i]
    }

    /// The shard that counts admin requests.
    pub fn admin_shard(&self) -> (r: &MetricsShard)
        requires
            self.shard_count() > 0,
        ensures
            r@ == self@[0],
    {
        &self.shards[0]
    }

    fn record_at(&mut self, i: usize, counts: MetricsSnapshot)
        requires
            i < old(self)@.len(),
        ensures
            final(self)@ == counted_in(old(self)@, i as int, counts),
    {
        let mut shard = MetricsShard { counts: self.shards[i].counts };
        shard.record(counts);
        self.shards.set(i, shard);
        assert(self@ =~= counted_in(old(self)@, i as int, counts));
    }

    /// Counts a request of a connection in its shard.
    pub fn record_for_request(&mut self, connection_id: u64, request_id: u64, counts: MetricsSnapshot)
        requires
            old(self).shard_count() > 0,
        ensures
            final(self)@ == counted_in(
                old(self)@,
                metrics_shard_index(connection_id, request_id, old(self).shard_count()),
                counts,
            ),
    {
        let i = mix_index(connection_id, request_id, self.shards.len());
        self.record_at(i, counts);
    }

    /// Counts an admin request in the admin shard.
    pub fn record_admin(&mut self, counts: MetricsSnapshot)
        requires
            old(self).shard_count() > 0,
        ensures
            final(self)@ == counted_in(old(self)@, 0, counts),
    {
        self.record_at(0, counts);
    }

    /// Every shard's counters added up, saturating.
    pub fn snapshot(&self) -> (r: MetricsSnapshot)
        ensures
            r == sum_snapshots(self@),
    {
        let ghost ms = self@;
        let mut total = MetricsSnapshot::default();
        let mut k: usize = 0;
        while k < self.shards.len()
            invariant
                ms == self@,
                0 <= k <= ms.len(),
                total == sum_snapshots(ms.take(k as int)),
            decreases ms.len() - k,
        {
            let s = self.shards[k].snapshot();
            total = total.saturating_add(s);
            proof {
                assert(ms.take(k + 1).drop_last() =~= ms.take(k as int));
            }
            k = k + 1;
        }
        assert(ms.take(ms.len() as int) =~= ms);
        total
    }
}

// ---------------------------------------------------------------------------
// Framing.
// ---------------------------------------------------------------------------

/// What a buffer of received bytes holds: complete frames (their byte
/// ranges, one after the other from the start), not yet a whole frame, or
/// a frame whose declared payload is over the limit, on which the
/// connection closes.
pub enum FrameDrain {
    Frames(Vec<std::ops::Range<usize>>),
    NeedMore,
    Close,
}

/// The declared payload length of the frame whose header starts at `off`.
pub open spec fn declared_len(b: Seq<u8>, off: int) -> u32 {
    u32_of_be(b.subrange(off + 16, off + 20))
}

/// The complete frames that start at `off`: their ends in order, and
/// whether an oversized declared payload was met before a frame fell short.
pub open spec fn frames_from(b: Seq<u8>, off: int, max: usize) -> (Seq<int>, bool)
    decreases b.len() - off,
{
    if off < 0 || b.len() - off < 24 {
        (Seq::empty(), false)
    } else if declared_len(b, off) > max {
        (Seq::empty(), true)
    } else {
        let end = off + 24 + declared_len(b, off);
        if end > b.len() {
            (Seq::empty(), false)
        } else {
            let (rest, close) = frames_from(b, end, max);
            (seq![end] + rest, close)
        }
    }
}

/// Reads the big-endian `u32` at `b[i..i + 4]`.
fn read_u32_at(b: &[u8], i: usize) -> (r: u32)
    requires
        i + 4 <= b@.len(),
    ensures
        r == u32_of_be(b@.subrange(i as int, i + 4)),
{
    let x = ((b[i] as u32) << 24u32) | ((b[i + 1] as u32) << 16u32) | ((b[i + 2] as u32) << 8u32)
        | (b[i + 3] as u32);
    let ghost s = b@.subrange(i as int, i + 4);
    assert(s[0] == b@[i as int] && s[1] == b@[i + 1] && s[2] == b@[i + 2] && s[3] == b@[i + 3]);
    x
}

/// Finds the complete frames at the start of `buffer`, each of a header
/// and the payload length it declares.
pub fn find_complete_native_frames(buffer: &[u8], max_payload_len: usize) -> (r: FrameDrain)
    ensures
        ({
            let (ends, close) = frames_from(buffer@, 0, max_payload_len);
            match r {
                FrameDrain::Close => close,
                FrameDrain::NeedMore => !close && ends.len() == 0,
                FrameDrain::Frames(v) => !close && ends.len() > 0 && v@.len() == ends.len() && (
                forall|i: int|
                    0 <= i < v@.len() ==> (#[trigger] v@[i]).end == ends[i] && v@[i].start == (
                    if i == 0 {
                        0
                    } else {
                        ends[i - 1]
                    })),
            }
        }),
{
    let mut frames: Vec<std::ops::Range<usize>> = Vec::new();
    let mut offset: usize = 0;
    let ghost mut done: Seq<int> = Seq::empty();
    while buffer.len() - offset >= HEADER_LEN
        invariant
            offset <= buffer@.len(),
            frames@.len() == done.len(),
            done.len() > 0 ==> done.last() == offset,
            done.len() == 0 ==> offset == 0,
            forall|i: int|
                0 <= i < frames@.len() ==> (#[trigger] frames@[i]).end == done[i]
                    && frames@[i].start == (if i == 0 {
                    0
                } else {
                    done[i - 1]
                }),
            frames_from(buffer@, 0, max_payload_len) == ({
                let (rest, close) = frames_from(buffer@, offset as int, max_payload_len);
                (done + rest, close)
            }),
        ensures
            frames_from(buffer@, 0, max_payload_len) == (done, false),
            frames@.len() == done.len(),
            forall|i: int|
                0 <= i < frames@.len() ==> (#[trigger] frames@[i]).end == done[i]
                    && frames@[i].start == (if i == 0 {
                    0
                } else {
                    done[i - 1]
                }),
        decreases buffer@.len() - offset,
    {
        let payload_len = read_u32_at(buffer, offset + 16);
        if payload_len as usize > max_payload_len {
            return FrameDrain::Close;
        }
        if buffer.len() - offset - HEADER_LEN < payload_len as usize {
            break;
        }
        let frame_len = HEADER_LEN + payload_len as usize;
        let end = offset + frame_len;
        frames.push(offset..end);
        proof {
            let d1 = done.push(end as int);
            assert(done + (seq![end as int] + frames_from(buffer@, end as int, max_payload_len).0) =~= d1
                + frames_from(buffer@, end as int, max_payload_len).0);
            done = d1;
        }
        offset = end;
    }
    if frames.len() == 0 {
        FrameDrain::NeedMore
    } else {
        FrameDrain::Frames(frames)
    }
}

/// Removes the bytes of the given frames, which start at the buffer's
/// start, keeping what follows the last one.
pub fn drain_frame_ranges(buffer: &mut Vec<u8>, ranges: &[std::ops::Range<usize>])
    requires
        ranges@.len() > 0 ==> ranges@.last().end <= old(buffer)@.len(),
    ensures
        final(buffer)@ == if ranges@.len() > 0 {
            old(buffer)@.subrange(ranges@.last().end as int, old(buffer)@.len() as int)
        } else {
            old(buffer)@
        },
{
    if ranges.len() > 0 {
        let end = ranges[ranges.len() - 1].end;
        let mut rest: Vec<u8> = Vec::new();
        let mut i = end;
        while i < buffer.len()
            invariant
                end <= i <= buffer@.len(),
                buffer@ == old(buffer)@,
                rest@ == buffer@.subrange(end as int, i as int),
            decreases buffer@.len() - i,
        {
            rest.push(buffer[i]);
            assert(rest@ =~= buffer@.subrange(end as int, i + 1));
            i = i + 1;
        }
        *buffer = rest;
    }
}


// ---------------------------------------------------------------------------
// Executing requests.
// ---------------------------------------------------------------------------

/// `n` saturated to `u32::MAX`.
pub open spec fn u32_cap(n: nat) -> u32 {
    if n > u32::MAX {
        u32::MAX
    } else {
        n as u32
    }
}

fn cap_u32(n: usize) -> (r: u32)
    ensures
        r == u32_cap(n as nat),
{
    if n > 4294967295usize {
        4294967295u32
    } else {
        n as u32
    }
}


/// A read's outcome as a response.
pub open spec fn get_response(g: GetModel) -> ResponseModel {
    match g {
        GetModel::Hit(v) => ResponseModel::Hit(v),
        GetModel::Stale(v) => ResponseModel::Stale(v),
        GetModel::Miss => ResponseModel::Miss,
    }
}

/// A read's outcome as a batch item.
pub open spec fn batch_item(g: GetModel) -> BatchItemModel {
    match g {
        GetModel::Hit(v) => BatchItemModel::Hit(v),
        GetModel::Stale(v) => BatchItemModel::Stale(v),
        GetModel::Miss => BatchItemModel::Miss,
    }
}

/// A refused write as an error response.
pub open spec fn put_error_response(e: PutError) -> ResponseModel {
    match e {
        PutError::ValueTooLarge { .. } => ResponseModel::Error {
            code: ErrorCode::ValueTooLarge,
            message: text_bytes("value exceeds configured value limit"@),
        },
        PutError::ValueTooLargeForMemory { .. } => ResponseModel::Error {
            code: ErrorCode::EntryTooLarge,
            message: text_bytes("entry cannot fit configured memory limit"@),
        },
        PutError::InsufficientMemory { .. } => ResponseModel::Error {
            code: ErrorCode::InsufficientMemory,
            message: text_bytes("entry could not fit after cleanup and eviction"@),
        },
    }
}

/// A write's outcome as a response: how many entries it evicted, or why it
/// was refused.
pub open spec fn put_response(r: Result<PutOutcome, PutError>) -> ResponseModel {
    match r {
        Ok(o) => ResponseModel::Stored { evicted: u32_cap(o.evicted as nat) },
        Err(e) => put_error_response(e),
    }
}

/// A lease completion's outcome as a response.
pub open spec fn complete_response(r: Result<PutOutcome, CompleteLeaseError>) -> ResponseModel {
    match r {
        Ok(o) => ResponseModel::Stored { evicted: u32_cap(o.evicted as nat) },
        Err(CompleteLeaseError::InvalidLeaseToken) => ResponseModel::Error {
            code: ErrorCode::InvalidLeaseToken,
            message: text_bytes("lease token is missing, expired, or no longer active"@),
        },
        Err(CompleteLeaseError::Put(e)) => put_error_response(e),
    }
}

/// A lease request's outcome as a response.
pub open spec fn lease_response(o: StartLeaseModel) -> ResponseModel {
    match o {
        StartLeaseModel::Hit(v) => ResponseModel::Hit(v),
        StartLeaseModel::Stale(v) => ResponseModel::Stale(v),
        StartLeaseModel::Granted { token, stale_value } => ResponseModel::LeaseGranted {
            lease_token: text_bytes(token),
            stale_value,
        },
        StartLeaseModel::Denied => ResponseModel::LeaseDenied,
    }
}

/// A read at `now` and its response.
pub open spec fn get_exec(m: ShardedModel, ns: Seq<char>, key: Seq<u8>, now: u64) -> (ResponseModel, ShardedModel) {
    let (g, m1) = sharded_get_at(m, ns, key, now, true);
    (get_response(g), m1)
}

/// A lease request at `now` and its response.
pub open spec fn lease_exec(m: ShardedModel, ns: Seq<char>, key: Seq<u8>, ttl: u64, now: u64) -> (ResponseModel, ShardedModel) {
    let (o, m1) = sharded_start_lease_at(m, ns, key, ttl, now);
    (lease_response(o), m1)
}

/// The write a put request asks for.
pub open spec fn put_model(ns: Seq<char>, key: Seq<u8>, md: Metadata, value: Seq<u8>) -> PutModel {
    PutModel {
        namespace: ns,
        key,
        value,
        ttl: md.ttl,
        stale_ttl: md.stale_ttl,
        tags: strings_view(md.tags@),
        cost: md.cost,
    }
}

/// A request executed on the engine, reads made at `times` (one per key for
/// a batch, else the first): the response and the engine after.
pub open spec fn native_exec(m: ShardedModel, p: RequestPayload, times: Seq<u64>) -> (
    ResponseModel,
    ShardedModel,
) {
    match p {
        RequestPayload::Get { namespace, key } => {
            let (g, m1) = sharded_get_at(m, namespace@, key@, times[0], true);
            (get_response(g), m1)
        },
        RequestPayload::Put { namespace, key, metadata, value } => {
            let (r, m1) = sharded_put_at(m, put_model(namespace@, key@, metadata, value@), times[0]);
            (put_response(r), m1)
        },
        RequestPayload::Delete { namespace, key } => {
            let (removed, m1) = sharded_delete(m, namespace@, key@);
            (ResponseModel::Deleted { removed }, m1)
        },
        RequestPayload::BatchGet { namespace, keys } => {
            let (gs, m1) = sharded_batch_get_at(m, namespace@, keys_view(keys@), times);
            (ResponseModel::BatchGet { items: gs.map_values(|g: GetModel| batch_item(g)) }, m1)
        },
        RequestPayload::TagInvalidate { namespace, tag } => {
            let (c, m1) = sharded_invalidate(m, namespace@, tag@);
            (ResponseModel::Invalidated { removed: u32_cap(cap_usize(c) as nat) }, m1)
        },
        RequestPayload::LeaseStart { namespace, key, lease_ttl_ms, .. } => {
            let (o, m1) = sharded_start_lease_at(m, namespace@, key@, lease_ttl_ms, times[0]);
            (lease_response(o), m1)
        },
        RequestPayload::LeaseComplete { namespace, key, lease_token, metadata, value } => {
            let c = CompleteLeaseModel {
                token: lease_token@,
                put: put_model(namespace@, key@, metadata, value@),
            };
            let (r, m1) = sharded_complete_lease_at(m, c, times[0]);
            (complete_response(r), m1)
        },
    }
}

/// A borrowed request executed on the engine at `now`.
pub open spec fn native_exec_view(m: ShardedModel, p: RequestPayloadView, now: u64) -> (
    ResponseModel,
    ShardedModel,
) {
    match p {
        RequestPayloadView::Get { namespace, key } => {
            let (g, m1) = sharded_get_at(m, namespace@, key@, now, true);
            (get_response(g), m1)
        },
        RequestPayloadView::Delete { namespace, key } => {
            let (removed, m1) = sharded_delete(m, namespace@, key@);
            (ResponseModel::Deleted { removed }, m1)
        },
        RequestPayloadView::TagInvalidate { namespace, tag } => {
            let (c, m1) = sharded_invalidate(m, namespace@, tag@);
            (ResponseModel::Invalidated { removed: u32_cap(cap_usize(c) as nat) }, m1)
        },
        RequestPayloadView::LeaseStart { namespace, key, lease_ttl_ms, .. } => {
            let (o, m1) = sharded_start_lease_at(m, namespace@, key@, lease_ttl_ms, now);
            (lease_response(o), m1)
        },
    }
}

/// The engine command of a put request.
pub fn native_put_command(namespace: String, key: Vec<u8>, metadata: Metadata, value: Vec<u8>) -> (r:
    PutCommand)
    ensures
        r@ == put_model(namespace@, key@, metadata, value@),
{
    PutCommand {
        namespace,
        key,
        value,
        ttl: metadata.ttl,
        stale_ttl: metadata.stale_ttl,
        tags: metadata.tags,
        cost: metadata.cost,
    }
}

/// The response to a refused write.
pub fn native_put_error(error: PutError) -> (r: ResponsePayload)
    ensures
        r@ == put_error_response(error),
{
    match error {
        PutError::ValueTooLarge { .. } => ResponsePayload::Error {
            code: ErrorCode::ValueTooLarge,
            message: String::from_str("value exceeds configured value limit"),
        },
        PutError::ValueTooLargeForMemory { .. } => ResponsePayload::Error {
            code: ErrorCode::EntryTooLarge,
            message: String::from_str("entry cannot fit configured memory limit"),
        },
        PutError::InsufficientMemory { .. } => ResponsePayload::Error {
            code: ErrorCode::InsufficientMemory,
            message: String::from_str("entry could not fit after cleanup and eviction"),
        },
    }
}

fn stored(evicted: usize) -> (r: ResponsePayload)
    ensures
        r@ == (ResponseModel::Stored { evicted: u32_cap(evicted as nat) }),
{
    ResponsePayload::Stored { evicted: cap_u32(evicted) }
}

fn invalidated(removed: usize) -> (r: ResponsePayload)
    ensures
        r@ == (ResponseModel::Invalidated { removed: u32_cap(removed as nat) }),
{
    ResponsePayload::Invalidated { removed: cap_u32(removed) }
}

/// A read now.
fn get_now<C: Clock>(
    engine: &mut ShardedEngine<C>,
    namespace: &str,
    key: &[u8],
) -> (r: ResponsePayload)
    requires
        old(engine).wf(),
    ensures
        final(engine).wf(),
        exists|now: u64|
            (r@, final(engine)@) == #[trigger] get_exec(old(engine)@, namespace@, key@, now),
{
    let ghost before = engine@;
    let outcome = engine.get(namespace, key);
    let ghost now = choose|now: u64| (outcome@, engine@) == #[trigger] sharded_get_at(before, namespace@, key@, now, true);
    let r = match outcome {
        GetOutcome::Hit(value) => {
            ResponsePayload::Hit(value)
        },
        GetOutcome::Stale(value) => {
            ResponsePayload::Stale(value)
        },
        GetOutcome::Miss => {
            ResponsePayload::Miss
        },
    };
    assert((r@, engine@) == get_exec(before, namespace@, key@, now));
    r
}

/// A lease request now.
fn lease_start_now<C: Clock>(
    engine: &mut ShardedEngine<C>,
    namespace: &str,
    key: &[u8],
    lease_ttl_ms: u64,
) -> (r: ResponsePayload)
    requires
        old(engine).wf(),
    ensures
        final(engine).wf(),
        exists|now: u64|
            (r@, final(engine)@) == #[trigger] lease_exec(old(engine)@, namespace@, key@, lease_ttl_ms, now),
{
    let ghost before = engine@;
    let outcome = engine.start_lease(namespace, key, lease_ttl_ms);
    let ghost now = choose|now: u64| (outcome@, engine@) == #[trigger] sharded_start_lease_at(before, namespace@, key@, lease_ttl_ms, now);
    let r = match outcome {
        StartLeaseOutcome::Hit(value) => {
            ResponsePayload::Hit(value)
        },
        StartLeaseOutcome::Stale { value } => {
            ResponsePayload::Stale(value)
        },
        StartLeaseOutcome::LeaseGranted { token, stale_value } => {
            ResponsePayload::LeaseGranted { lease_token: token, stale_value }
        },
        StartLeaseOutcome::LeaseDenied => {
            ResponsePayload::LeaseDenied
        },
    };
    assert((r@, engine@) == lease_exec(before, namespace@, key@, lease_ttl_ms, now));
    r
}

/// Executes a decoded request.
fn execute_payload<C: Clock>(
    engine: &mut ShardedEngine<C>,
    payload: RequestPayload,
) -> (r: ResponsePayload)
    requires
        old(engine).wf(),
    ensures
        final(engine).wf(),
        exists|times: Seq<u64>| (r@, final(engine)@) == #[trigger] native_exec(old(engine)@, payload, times),
{
    let ghost before = engine@;
    let ghost p = payload;
    match payload {
        RequestPayload::Get { namespace, key } => {
            let r = get_now(engine, namespace.as_str(), key.as_slice());
            let ghost now = choose|now: u64|
                (r@, engine@) == #[trigger] get_exec(before, namespace@, key@, now);
            assert((r@, engine@) == native_exec(before, p, seq![now]));
            r
        },
        RequestPayload::Put { namespace, key, metadata, value } => {
            let ghost c = put_model(namespace@, key@, metadata, value@);
            let command = native_put_command(namespace, key, metadata, value);
            let result = engine.put(command);
            let ghost now = choose|now: u64| (result, engine@) == #[trigger] sharded_put_at(before, c, now);
            let r = match result {
                Ok(outcome) => stored(outcome.evicted),
                Err(error) => {
                    native_put_error(error)
                },
            };
            assert((r@, engine@) == native_exec(before, p, seq![now]));
            r
        },
        RequestPayload::Delete { namespace, key } => {
            let removed = engine.delete(namespace.as_str(), key.as_slice());
            let r = ResponsePayload::Deleted { removed };
            assert((r@, engine@) == native_exec(before, p, seq![0u64]));
            r
        },
        RequestPayload::BatchGet { namespace, keys } => {
            let outcomes = engine.batch_get(namespace.as_str(), keys.as_slice());
            let ghost times = choose|times: Seq<u64>|
                times.len() == keys@.len() && (outcomes_view(outcomes@), engine@) == #[trigger] sharded_batch_get_at(
                    before,
                    namespace@,
                    keys_view(keys@),
                    times,
                );
            let ghost gs = outcomes_view(outcomes@);
            let mut items: Vec<BatchItem> = Vec::new();
            let mut i: usize = 0;
            while i < outcomes.len()
                invariant
                    0 <= i <= outcomes@.len(),
                    gs == outcomes_view(outcomes@),
                    items@.len() == i,
                    forall|k: int| 0 <= k < i ==> (#[trigger] items@[k])@ == batch_item(gs[k]),
                decreases outcomes@.len() - i,
            {
                assert(gs[i as int] == outcomes@[i as int]@);
                match &outcomes[i] {
                    GetOutcome::Hit(value) => {
                        items.push(BatchItem::Hit(crate::bytes::copy_bytes(value.as_slice())));
                    },
                    GetOutcome::Stale(value) => {
                        items.push(BatchItem::Stale(crate::bytes::copy_bytes(value.as_slice())));
                    },
                    GetOutcome::Miss => {
                        items.push(BatchItem::Miss);
                    },
                }
                i = i + 1;
            }
            let r = ResponsePayload::BatchGet { items };
            assert(r@ == (ResponseModel::BatchGet { items: gs.map_values(|g: GetModel| batch_item(g)) })) by {
                assert(items@.map_values(|b: BatchItem| b@) =~= gs.map_values(|g: GetModel| batch_item(g)));
            }
            assert((r@, engine@) == native_exec(before, p, times));
            r
        },
        RequestPayload::TagInvalidate { namespace, tag } => {
            let removed = engine.invalidate_tag(namespace.as_str(), tag.as_str());
            let r = invalidated(removed);
            assert((r@, engine@) == native_exec(before, p, seq![0u64]));
            r
        },
        RequestPayload::LeaseStart { namespace, key, lease_ttl_ms, allow_stale_ms: _ } => {
            let r = lease_start_now(engine, namespace.as_str(), key.as_slice(), lease_ttl_ms);
            let ghost now = choose|now: u64|
                (r@, engine@) == #[trigger] lease_exec(before, namespace@, key@, lease_ttl_ms, now);
            assert((r@, engine@) == native_exec(before, p, seq![now]));
            r
        },
        RequestPayload::LeaseComplete { namespace, key, lease_token, metadata, value } => {
            let ghost c = CompleteLeaseModel {
                token: lease_token@,
                put: put_model(namespace@, key@, metadata, value@),
            };
            let command = CompleteLeaseCommand {
                namespace,
                key,
                lease_token,
                value,
                ttl: metadata.ttl,
                stale_ttl: metadata.stale_ttl,
                tags: metadata.tags,
                cost: metadata.cost,
            };
            assert(command@ == c);
            let result = engine.complete_lease(command);
            let ghost now = choose|now: u64| (result, engine@) == #[trigger] sharded_complete_lease_at(before, c, now);
            let r = match result {
                Ok(outcome) => stored(outcome.evicted),
                Err(CompleteLeaseError::InvalidLeaseToken) => {
                    ResponsePayload::Error {
                        code: ErrorCode::InvalidLeaseToken,
                        message: String::from_str("lease token is missing, expired, or no longer active"),
                    }
                },
                Err(CompleteLeaseError::Put(error)) => {
                    native_put_error(error)
                },
            };
            assert((r@, engine@) == native_exec(before, p, seq![now]));
            r
        },
    }
}

/// Executes a borrowed request.
fn execute_payload_view<C: Clock>(
    engine: &mut ShardedEngine<C>,
    payload: RequestPayloadView<'_>,
) -> (r: ResponsePayload)
    requires
        old(engine).wf(),
    ensures
        final(engine).wf(),
        exists|now: u64| (r@, final(engine)@) == #[trigger] native_exec_view(old(engine)@, payload, now),
{
    let ghost before = engine@;
    match payload {
        RequestPayloadView::Get { namespace, key } => {
            let r = get_now(engine, namespace, key);
            let ghost now = choose|now: u64|
                (r@, engine@) == #[trigger] get_exec(before, namespace@, key@, now);
            assert((r@, engine@) == native_exec_view(before, payload, now));
            r
        },
        RequestPayloadView::Delete { namespace, key } => {
            let removed = engine.delete(namespace, key);
            let r = ResponsePayload::Deleted { removed };
            assert((r@, engine@) == native_exec_view(before, payload, 0));
            r
        },
        RequestPayloadView::TagInvalidate { namespace, tag } => {
            let removed = engine.invalidate_tag(namespace, tag);
            let r = invalidated(removed);
            assert((r@, engine@) == native_exec_view(before, payload, 0));
            r
        },
        RequestPayloadView::LeaseStart { namespace, key, lease_ttl_ms, allow_stale_ms: _ } => {
            let r = lease_start_now(engine, namespace, key, lease_ttl_ms);
            let ghost now = choose|now: u64|
                (r@, engine@) == #[trigger] lease_exec(before, namespace@, key@, lease_ttl_ms, now);
            assert((r@, engine@) == native_exec_view(before, payload, now));
            r
        },
    }
}

// ---------------------------------------------------------------------------
// What a request counts.
// ---------------------------------------------------------------------------

/// The counts of a request of each command: gets, puts, deletes, batch
/// gets and tag invalidations are counted as such; lease requests and
/// completions only by their outcome.
pub open spec fn request_counts(p: RequestModel) -> MetricsSnapshot {
    match p {
        RequestModel::Get { .. } => MetricsSnapshot { get_requests: 1, ..zero_snapshot() },
        RequestModel::Put { .. } => MetricsSnapshot { put_requests: 1, ..zero_snapshot() },
        RequestModel::Delete { .. } => MetricsSnapshot { delete_requests: 1, ..zero_snapshot() },
        RequestModel::BatchGet { .. } => MetricsSnapshot { batch_get_requests: 1, ..zero_snapshot() },
        RequestModel::TagInvalidate { .. } => MetricsSnapshot {
            tag_invalidate_requests: 1,
            ..zero_snapshot()
        },
        _ => zero_snapshot(),
    }
}

/// The count of one batch item: a hit, a stale read or a miss.
pub open spec fn item_counts(b: BatchItemModel) -> MetricsSnapshot {
    match b {
        BatchItemModel::Hit(_) => MetricsSnapshot { hits_total: 1, ..zero_snapshot() },
        BatchItemModel::Stale(_) => MetricsSnapshot { stale_total: 1, ..zero_snapshot() },
        BatchItemModel::Miss => MetricsSnapshot { misses_total: 1, ..zero_snapshot() },
    }
}

/// The counts of the items of a batch, added up.
pub open spec fn items_counts(items: Seq<BatchItemModel>) -> MetricsSnapshot
    decreases items.len(),
{
    if items.len() == 0 {
        zero_snapshot()
    } else {
        add_snapshots(items_counts(items.drop_last()), item_counts(items.last()))
    }
}

/// The counts of a response: a hit, a stale read, a miss, a lease granted
/// or denied, an error; each item of a batch; nothing for the others.
pub open spec fn response_counts(r: ResponseModel) -> MetricsSnapshot {
    match r {
        ResponseModel::Hit(_) => MetricsSnapshot { hits_total: 1, ..zero_snapshot() },
        ResponseModel::Stale(_) => MetricsSnapshot { stale_total: 1, ..zero_snapshot() },
        ResponseModel::Miss => MetricsSnapshot { misses_total: 1, ..zero_snapshot() },
        ResponseModel::LeaseGranted { .. } => MetricsSnapshot { lease_grants: 1, ..zero_snapshot() },
        ResponseModel::LeaseDenied => MetricsSnapshot { lease_denials: 1, ..zero_snapshot() },
        ResponseModel::Error { .. } => MetricsSnapshot { errors_total: 1, ..zero_snapshot() },
        ResponseModel::BatchGet { items } => items_counts(items),
        _ => zero_snapshot(),
    }
}

/// What answering request `p` with response `r` adds to the counters.
pub open spec fn native_counts(p: RequestModel, r: ResponseModel) -> MetricsSnapshot {
    add_snapshots(request_counts(p), response_counts(r))
}

proof fn lemma_items_not_admin(items: Seq<BatchItemModel>)
    ensures
        items_counts(items).requests_total == 0,
        items_counts(items).health_requests == 0,
    decreases items.len(),
{
    if items.len() > 0 {
        lemma_items_not_admin(items.drop_last());
    }
}

/// A request of the native protocol is never counted as an admin HTTP
/// request: neither the request total nor the health checks move.
pub proof fn law_native_requests_not_admin(p: RequestModel, r: ResponseModel)
    ensures
        native_counts(p, r).requests_total == 0,
        native_counts(p, r).health_requests == 0,
{
    if let ResponseModel::BatchGet { items } = r {
        lemma_items_not_admin(items);
    }
}

/// The counts of a request's command (`request_counts`).
pub fn request_counts_of(p: &RequestPayload) -> (c: MetricsSnapshot)
    ensures
        c == request_counts(p@),
{
    let z = MetricsSnapshot::default();
    match p {
        RequestPayload::Get { .. } => MetricsSnapshot { get_requests: 1, ..z },
        RequestPayload::Put { .. } => MetricsSnapshot { put_requests: 1, ..z },
        RequestPayload::Delete { .. } => MetricsSnapshot { delete_requests: 1, ..z },
        RequestPayload::BatchGet { .. } => MetricsSnapshot { batch_get_requests: 1, ..z },
        RequestPayload::TagInvalidate { .. } => MetricsSnapshot { tag_invalidate_requests: 1, ..z },
        _ => z,
    }
}

/// The counts of a borrowed request's command (`request_counts`).
pub fn request_view_counts_of(p: &RequestPayloadView<'_>) -> (c: MetricsSnapshot)
    ensures
        c == request_counts(p@),
{
    let z = MetricsSnapshot::default();
    match p {
        RequestPayloadView::Get { .. } => MetricsSnapshot { get_requests: 1, ..z },
        RequestPayloadView::Delete { .. } => MetricsSnapshot { delete_requests: 1, ..z },
        RequestPayloadView::TagInvalidate { .. } => MetricsSnapshot { tag_invalidate_requests: 1, ..z },
        RequestPayloadView::LeaseStart { .. } => z,
    }
}

/// The counts of one batch item (`item_counts`).
fn item_counts_of(b: &BatchItem) -> (c: MetricsSnapshot)
    ensures
        c == item_counts(b@),
{
    let z = MetricsSnapshot::default();
    match b {
        BatchItem::Hit(_) => MetricsSnapshot { hits_total: 1, ..z },
        BatchItem::Stale(_) => MetricsSnapshot { stale_total: 1, ..z },
        BatchItem::Miss => MetricsSnapshot { misses_total: 1, ..z },
    }
}

/// The counts of a response (`response_counts`).
pub fn response_counts_of(r: &ResponsePayload) -> (c: MetricsSnapshot)
    ensures
        c == response_counts(r@),
{
    let z = MetricsSnapshot::default();
    match r {
        ResponsePayload::Hit(_) => MetricsSnapshot { hits_total: 1, ..z },
        ResponsePayload::Stale(_) => MetricsSnapshot { stale_total: 1, ..z },
        ResponsePayload::Miss => MetricsSnapshot { misses_total: 1, ..z },
        ResponsePayload::LeaseGranted { .. } => MetricsSnapshot { lease_grants: 1, ..z },
        ResponsePayload::LeaseDenied => MetricsSnapshot { lease_denials: 1, ..z },
        ResponsePayload::Error { .. } => MetricsSnapshot { errors_total: 1, ..z },
        ResponsePayload::BatchGet { items } => {
            let ghost ms = batch_items_model(items@);
            let mut total = z;
            let mut i: usize = 0;
            while i < items.len()
                invariant
                    ms == batch_items_model(items@),
                    0 <= i <= items@.len(),
                    total == items_counts(ms.take(i as int)),
                decreases items@.len() - i,
            {
                let c = item_counts_of(&items[i]);
                total = total.saturating_add(c);
                proof {
                    assert(ms.take(i + 1).drop_last() =~= ms.take(i as int));
                }
                i = i + 1;
            }
            assert(ms.take(ms.len() as int) =~= ms);
            total
        },
        _ => z,
    }
}

/// A read now, counted in the metrics shard: a get, and its hit, stale
/// read or miss.
pub fn execute_native_get<C: Clock>(
    engine: &mut ShardedEngine<C>,
    metrics: &mut MetricsShard,
    namespace: &str,
    key: &[u8],
) -> (r: ResponsePayload)
    requires
        old(engine).wf(),
    ensures
        final(engine).wf(),
        exists|now: u64|
            (r@, final(engine)@) == #[trigger] get_exec(old(engine)@, namespace@, key@, now),
        final(metrics)@ == count_into(
            old(metrics)@,
            native_counts(RequestModel::Get { namespace: text_bytes(namespace@), key: key@ }, r@),
        ),
{
    let r = get_now(engine, namespace, key);
    let c = MetricsSnapshot { get_requests: 1, ..MetricsSnapshot::default() };
    metrics.record(c.saturating_add(response_counts_of(&r)));
    r
}

/// A lease request now, counted in the metrics shard by its outcome: a
/// hit, a stale read, a lease granted or denied.
pub fn execute_native_lease_start<C: Clock>(
    engine: &mut ShardedEngine<C>,
    metrics: &mut MetricsShard,
    namespace: &str,
    key: &[u8],
    lease_ttl_ms: u64,
) -> (r: ResponsePayload)
    requires
        old(engine).wf(),
    ensures
        final(engine).wf(),
        exists|now: u64|
            (r@, final(engine)@) == #[trigger] lease_exec(old(engine)@, namespace@, key@, lease_ttl_ms, now),
        final(metrics)@ == count_into(old(metrics)@, response_counts(r@)),
{
    let r = lease_start_now(engine, namespace, key, lease_ttl_ms);
    metrics.record(response_counts_of(&r));
    r
}

/// Executes a decoded request, counting it in the metrics shard as
/// `native_counts` says.
pub fn execute_native_payload_with_metrics<C: Clock>(
    engine: &mut ShardedEngine<C>,
    metrics: &mut MetricsShard,
    payload: RequestPayload,
) -> (r: ResponsePayload)
    requires
        old(engine).wf(),
    ensures
        final(engine).wf(),
        exists|times: Seq<u64>| (r@, final(engine)@) == #[trigger] native_exec(old(engine)@, payload, times),
        final(metrics)@ == count_into(old(metrics)@, native_counts(payload@, r@)),
{
    let ghost p = payload;
    let req = request_counts_of(&payload);
    let r = execute_payload(engine, payload);
    metrics.record(req.saturating_add(response_counts_of(&r)));
    r
}

/// Executes a borrowed request, counting it in the metrics shard as
/// `native_counts` says.
pub fn execute_native_payload_view<C: Clock>(
    engine: &mut ShardedEngine<C>,
    metrics: &mut MetricsShard,
    payload: RequestPayloadView<'_>,
) -> (r: ResponsePayload)
    requires
        old(engine).wf(),
    ensures
        final(engine).wf(),
        exists|now: u64| (r@, final(engine)@) == #[trigger] native_exec_view(old(engine)@, payload, now),
        final(metrics)@ == count_into(old(metrics)@, native_counts(payload@, r@)),
{
    let req = request_view_counts_of(&payload);
    let r = execute_payload_view(engine, payload);
    metrics.record(req.saturating_add(response_counts_of(&r)));
    r
}

/// Executes a decoded request frame: the response carries its id and
/// command; the request is counted in the metrics shard.
pub fn execute_native_request<C: Clock>(
    engine: &mut ShardedEngine<C>,
    metrics: &mut MetricsShard,
    frame: RequestFrame,
) -> (r: ResponseFrame)
    requires
        old(engine).wf(),
    ensures
        final(engine).wf(),
        r.request_id == frame.request_id,
        r.command == frame.command,
        exists|times: Seq<u64>| (r.payload@, final(engine)@) == #[trigger] native_exec(old(engine)@, frame.payload, times),
        final(metrics)@ == count_into(old(metrics)@, native_counts(frame.payload@, r.payload@)),
{
    let payload = execute_native_payload_with_metrics(engine, metrics, frame.payload);
    ResponseFrame { request_id: frame.request_id, command: frame.command, payload }
}

/// Executes a borrowed request frame: the response carries its id and
/// command; the request is counted in the metrics shard.
pub fn execute_native_request_view<C: Clock>(
    engine: &mut ShardedEngine<C>,
    metrics: &mut MetricsShard,
    frame: RequestFrameView<'_>,
) -> (r: ResponseFrame)
    requires
        old(engine).wf(),
    ensures
        final(engine).wf(),
        r.request_id == frame.request_id,
        r.command == frame.command,
        exists|now: u64| (r.payload@, final(engine)@) == #[trigger] native_exec_view(old(engine)@, frame.payload, now),
        final(metrics)@ == count_into(old(metrics)@, native_counts(frame.payload@, r.payload@)),
{
    let payload = execute_native_payload_view(engine, metrics, frame.payload);
    ResponseFrame { request_id: frame.request_id, command: frame.command, payload }
}

// ---------------------------------------------------------------------------
// Errors of undecodable frames.
// ---------------------------------------------------------------------------

/// The error code reported for a decode error.
pub open spec fn decode_error_code(e: DecodeError) -> ErrorCode {
    match e {
        DecodeError::UnsupportedVersion(_) => ErrorCode::UnsupportedVersion,
        DecodeError::UnknownCommand(_) => ErrorCode::UnknownCommand,
        DecodeError::FrameTooLarge { .. } => ErrorCode::FrameTooLarge,
        DecodeError::InvalidNamespace => ErrorCode::InvalidNamespace,
        DecodeError::InvalidTag => ErrorCode::InvalidTag,
        _ => ErrorCode::BadFrame,
    }
}

/// The error code reported for a decode error.
pub fn native_decode_error_code(error: &DecodeError) -> (r: ErrorCode)
    ensures
        r == decode_error_code(*error),
{
    match error {
        DecodeError::UnsupportedVersion(_) => ErrorCode::UnsupportedVersion,
        DecodeError::UnknownCommand(_) => ErrorCode::UnknownCommand,
        DecodeError::FrameTooLarge { .. } => ErrorCode::FrameTooLarge,
        DecodeError::InvalidNamespace => ErrorCode::InvalidNamespace,
        DecodeError::InvalidTag => ErrorCode::InvalidTag,
        _ => ErrorCode::BadFrame,
    }
}

/// `name(n)`
pub open spec fn with_number(name: Seq<char>, n: nat) -> Seq<char> {
    name + "("@ + decimal(n) + ")"@
}

/// The debug text of a decode error: its variant name and fields.
pub open spec fn decode_error_text(e: DecodeError) -> Seq<char> {
    match e {
        DecodeError::IncompleteHeader => "IncompleteHeader"@,
        DecodeError::BadMagic => "BadMagic"@,
        DecodeError::UnsupportedVersion(v) => with_number("UnsupportedVersion"@, v as nat),
        DecodeError::InvalidKind(v) => with_number("InvalidKind"@, v as nat),
        DecodeError::UnknownCommand(v) => with_number("UnknownCommand"@, v as nat),
        DecodeError::NonzeroFlags(v) => with_number("NonzeroFlags"@, v as nat),
        DecodeError::NonzeroReserved(v) => with_number("NonzeroReserved"@, v as nat),
        DecodeError::FrameTooLarge { payload_len, max } => "FrameTooLarge { payload_len: "@
            + decimal(payload_len as nat) + ", max: "@ + decimal(max as nat) + " }"@,
        DecodeError::TruncatedPayload { expected, actual } => "TruncatedPayload { expected: "@
            + decimal(expected as nat) + ", actual: "@ + decimal(actual as nat) + " }"@,
        DecodeError::InvalidPayload(m) => "InvalidPayload(\""@ + m@ + "\")"@,
        DecodeError::InvalidUtf8 => "InvalidUtf8"@,
        DecodeError::InvalidNamespace => "InvalidNamespace"@,
        DecodeError::InvalidTag => "InvalidTag"@,
        DecodeError::InvalidBool(v) => with_number("InvalidBool"@, v as nat),
        DecodeError::TrailingBytes(n) => with_number("TrailingBytes"@, n as nat),
    }
}

fn number_text(name: &str, n: u64) -> (r: String)
    ensures
        r@ == with_number(name@, n as nat),
{
    let mut t = String::from_str(name);
    t.append("(");
    append_decimal(&mut t, n);
    t.append(")");
    t
}

/// The debug text of a decode error.
pub fn decode_error_text_of(error: &DecodeError) -> (r: String)
    ensures
        r@ == decode_error_text(*error),
{
    match error {
        DecodeError::IncompleteHeader => String::from_str("IncompleteHeader"),
        DecodeError::BadMagic => String::from_str("BadMagic"),
        DecodeError::UnsupportedVersion(v) => number_text("UnsupportedVersion", *v as u64),
        DecodeError::InvalidKind(v) => number_text("InvalidKind", *v as u64),
        DecodeError::UnknownCommand(v) => number_text("UnknownCommand", *v as u64),
        DecodeError::NonzeroFlags(v) => number_text("NonzeroFlags", *v as u64),
        DecodeError::NonzeroReserved(v) => number_text("NonzeroReserved", *v as u64),
        DecodeError::FrameTooLarge { payload_len, max } => {
            let mut t = String::from_str("FrameTooLarge { payload_len: ");
            append_decimal(&mut t, *payload_len as u64);
            t.append(", max: ");
            append_decimal(&mut t, *max as u64);
            t.append(" }");
            t
        },
        DecodeError::TruncatedPayload { expected, actual } => {
            let mut t = String::from_str("TruncatedPayload { expected: ");
            append_decimal(&mut t, *expected as u64);
            t.append(", actual: ");
            append_decimal(&mut t, *actual as u64);
            t.append(" }");
            t
        },
        DecodeError::InvalidPayload(m) => {
            let mut t = String::from_str("InvalidPayload(\"");
            t.append(*m);
            t.append("\")");
            t
        },
        DecodeError::InvalidUtf8 => String::from_str("InvalidUtf8"),
        DecodeError::InvalidNamespace => String::from_str("InvalidNamespace"),
        DecodeError::InvalidTag => String::from_str("InvalidTag"),
        DecodeError::InvalidBool(v) => number_text("InvalidBool", *v as u64),
        DecodeError::TrailingBytes(n) => number_text("TrailingBytes", *n as u64),
    }
}

/// The error response to an undecodable frame, when the frame has a whole
/// header with the magic bytes: it answers the frame's request id and
/// command (`Get` when the command is unknown).
pub open spec fn decode_error_response(frame: Seq<u8>, e: DecodeError) -> Option<ResponseFrameModel> {
    if frame.len() < 24 || frame.subrange(0, 4) != seq![0x43u8, 0x42, 0x58, 0x31] {
        None
    } else {
        Some(
            ResponseFrameModel {
                request_id: u64_of_be(frame.subrange(8, 16)),
                command: match command_of_id(frame[6]) {
                    Some(c) => c,
                    None => Command::Get,
                },
                payload: ResponseModel::Error {
                    code: decode_error_code(e),
                    message: text_bytes(decode_error_text(e)),
                },
            },
        )
    }
}

/// The error response to an undecodable frame.
pub fn native_decode_error_response(frame: &[u8], error: DecodeError) -> (r: Option<ResponseFrame>)
    ensures
        match r {
            Some(f) => decode_error_response(frame@, error) == Some(f@),
            None => decode_error_response(frame@, error) is None,
        },
{
    if frame.len() < HEADER_LEN || frame[0] != 0x43 || frame[1] != 0x42 || frame[2] != 0x58
        || frame[3] != 0x31 {
        proof {
            if frame@.len() >= 24 {
                let m = frame@.subrange(0, 4);
                assert(m[0] == frame@[0] && m[1] == frame@[1] && m[2] == frame@[2] && m[3] == frame@[3]);
            }
        }
        return None;
    }
    assert(frame@.subrange(0, 4) =~= seq![0x43u8, 0x42, 0x58, 0x31]);
    let command = match Command::from_id(frame[6]) {
        Ok(c) => c,
        Err(_) => Command::Get,
    };
    let ghost idb = frame@.subrange(8, 16);
    assert(idb[0] == frame@[8] && idb[1] == frame@[9] && idb[2] == frame@[10] && idb[3] == frame@[11]
        && idb[4] == frame@[12] && idb[5] == frame@[13] && idb[6] == frame@[14] && idb[7] == frame@[15]);
    let request_id = ((frame[8] as u64) << 56u64) | ((frame[9] as u64) << 48u64) | ((frame[10] as u64)
        << 40u64) | ((frame[11] as u64) << 32u64) | ((frame[12] as u64) << 24u64) | ((frame[13] as u64)
        << 16u64) | ((frame[14] as u64) << 8u64) | (frame[15] as u64);
    let message = decode_error_text_of(&error);
    let code = native_decode_error_code(&error);
    Some(
        ResponseFrame {
            request_id,
            command,
            payload: ResponsePayload::Error { code, message },
        },
    )
}

// ---------------------------------------------------------------------------
// The admin HTTP surface.
// ---------------------------------------------------------------------------

/// What the admin HTTP server does with a request.
#[derive(Debug, Clone, Copy, PartialEq, Eq, Structural)]
pub enum AdminAction {
    /// Serve the metrics text.
    Metrics,
    /// Answer that the server is healthy.
    Health,
    /// Refuse: cache operations go over the native protocol.
    NotFound,
}

/// `GET /metrics` serves the metrics, `GET /healthz` the health check;
/// everything else is refused.
pub fn admin_action(is_get: bool, path: &str) -> (r: AdminAction)
    ensures
        r == if is_get && path@ == "/metrics"@ {
            AdminAction::Metrics
        } else if is_get && path@ == "/healthz"@ {
            AdminAction::Health
        } else {
            AdminAction::NotFound
        },
{
    if is_get && text_eq(path, METRICS_ROUTE) {
        AdminAction::Metrics
    } else if is_get && text_eq(path, HEALTH_ROUTE) {
        AdminAction::Health
    } else {
        AdminAction::NotFound
    }
}

/// What an admin request counts: a health check is a request and a health
/// check, a refused request a request and an error; serving the metrics
/// counts nothing.
pub open spec fn admin_counts_spec(a: AdminAction) -> MetricsSnapshot {
    match a {
        AdminAction::Metrics => zero_snapshot(),
        AdminAction::Health => MetricsSnapshot { requests_total: 1, health_requests: 1, ..zero_snapshot() },
        AdminAction::NotFound => MetricsSnapshot { requests_total: 1, errors_total: 1, ..zero_snapshot() },
    }
}

/// The counts of an admin request (`admin_counts_spec`).
pub fn admin_counts(action: AdminAction) -> (c: MetricsSnapshot)
    ensures
        c == admin_counts_spec(action),
{
    let z = MetricsSnapshot::default();
    match action {
        AdminAction::Metrics => z,
        AdminAction::Health => MetricsSnapshot { requests_total: 1, health_requests: 1, ..z },
        AdminAction::NotFound => MetricsSnapshot { requests_total: 1, errors_total: 1, ..z },
    }
}

/// One metrics line: the name, a space, the value in decimal.
pub open spec fn metric_line(name: Seq<char>, v: nat) -> Seq<char> {
    name + " "@ + decimal(v) + "\n"@
}

fn push_metric(out: &mut String, name: &str, v: u64)
    ensures
        final(out)@ == old(out)@ + metric_line(name@, v as nat),
{
    out.append(name);
    out.append(" ");
    append_decimal(out, v);
    out.append("\n");
}

/// The metrics text: request counters, cache outcomes, engine counters,
/// memory and cost, one per line.
pub open spec fn metrics_text(
    s: MetricsSnapshot,
    stats: EngineStats,
    memory_used_bytes: nat,
    memory_limit_bytes: nat,
    cost_score_total: nat,
) -> Seq<char> {
    "# HELP cachebox_requests_total Total admin HTTP requests handled.\n"@
        + "# TYPE cachebox_requests_total counter\n"@
        + metric_line("cachebox_requests_total"@, s.requests_total as nat)
        + metric_line("cachebox_requests_health_total"@, s.health_requests as nat)
        + metric_line("cachebox_requests_get_total"@, s.get_requests as nat)
        + metric_line("cachebox_requests_put_total"@, s.put_requests as nat)
        + metric_line("cachebox_requests_delete_total"@, s.delete_requests as nat)
        + metric_line("cachebox_requests_batch_get_total"@, s.batch_get_requests as nat)
        + metric_line("cachebox_requests_tag_invalidate_total"@, s.tag_invalidate_requests as nat)
        + "# HELP cachebox_cache_hits_total Cache hit outcomes.\n"@
        + "# TYPE cachebox_cache_hits_total counter\n"@
        + metric_line("cachebox_cache_hits_total"@, s.hits_total as nat)
        + metric_line("cachebox_cache_misses_total"@, s.misses_total as nat)
        + metric_line("cachebox_cache_stale_total"@, s.stale_total as nat)
        + metric_line("cachebox_lease_grants_total"@, s.lease_grants as nat)
        + metric_line("cachebox_lease_denials_total"@, s.lease_denials as nat)
        + metric_line("cachebox_errors_total"@, s.errors_total as nat)
        + metric_line("cachebox_expirations_total"@, stats.expirations as nat)
        + metric_line("cachebox_evictions_total"@, stats.evictions as nat)
        + metric_line("cachebox_memory_used_bytes"@, memory_used_bytes)
        + metric_line("cachebox_memory_limit_bytes"@, memory_limit_bytes)
        + metric_line("cachebox_cost_score_total"@, cost_score_total)
        + "cachebox_connections_current 0\n"@
}

/// The metrics text served at `/metrics`.
pub fn metrics_body(
    s: MetricsSnapshot,
    stats: EngineStats,
    memory_used_bytes: usize,
    memory_limit_bytes: usize,
    cost_score_total: u64,
) -> (r: String)
    ensures
        r@ == metrics_text(
            s,
            stats,
            memory_used_bytes as nat,
            memory_limit_bytes as nat,
            cost_score_total as nat,
        ),
{
    let mut out = String::from_str("# HELP cachebox_requests_total Total admin HTTP requests handled.\n");
    out.append("# TYPE cachebox_requests_total counter\n");
    push_metric(&mut out, "cachebox_requests_total", s.requests_total);
    push_metric(&mut out, "cachebox_requests_health_total", s.health_requests);
    push_metric(&mut out, "cachebox_requests_get_total", s.get_requests);
    push_metric(&mut out, "cachebox_requests_put_total", s.put_requests);
    push_metric(&mut out, "cachebox_requests_delete_total", s.delete_requests);
    push_metric(&mut out, "cachebox_requests_batch_get_total", s.batch_get_requests);
    push_metric(&mut out, "cachebox_requests_tag_invalidate_total", s.tag_invalidate_requests);
    out.append("# HELP cachebox_cache_hits_total Cache hit outcomes.\n");
    out.append("# TYPE cachebox_cache_hits_total counter\n");
    push_metric(&mut out, "cachebox_cache_hits_total", s.hits_total);
    push_metric(&mut out, "cachebox_cache_misses_total", s.misses_total);
    push_metric(&mut out, "cachebox_cache_stale_total", s.stale_total);
    push_metric(&mut out, "cachebox_lease_grants_total", s.lease_grants);
    push_metric(&mut out, "cachebox_lease_denials_total", s.lease_denials);
    push_metric(&mut out, "cachebox_errors_total", s.errors_total);
    push_metric(&mut out, "cachebox_expirations_total", stats.expirations);
    push_metric(&mut out, "cachebox_evictions_total", stats.evictions);
    push_metric(&mut out, "cachebox_memory_used_bytes", memory_used_bytes as u64);
    push_metric(&mut out, "cachebox_memory_limit_bytes", memory_limit_bytes as u64);
    push_metric(&mut out, "cachebox_cost_score_total", cost_score_total);
    out.append("cachebox_connections_current 0\n");
    out
}

} // verus!
