//! In-memory cache engine.
//!
//! Stores byte keys and values per namespace with lazy expiration, stale
//! reads, tags, cost accounting, leases for refresh coordination, a memory
//! cap enforced by reclaiming expired entries and then evicting the least
//! recently used sampled entry. Networking and request parsing stay outside.

use vstd::prelude::*;
use crate::api::Ttl;
use crate::bytes::{bytes_eq, bytes_lt, copy_bytes, seq_lt, text_bytes, text_eq};
use crate::text::{append_decimal, decimal};
use crate::seqs::{find_first, lemma_find_first, lemma_find_first_absent, lemma_find_first_at};

verus! {

pub const ENTRY_OVERHEAD_BYTES: usize = 96;
pub const LRU_SAMPLE_SIZE: usize = 16;
/// The most shards that a cache is split into by default.
pub const DEFAULT_SHARD_COUNT: usize = 16;

/// A source of the current time in milliseconds since the Unix epoch.
/// Nothing is assumed of what it returns.
pub trait Clock: Clone {
    fn now_ms(&self) -> u64;
}

/// The system's wall clock.
#[derive(Debug, Clone, Copy)]
pub struct SystemClock;

impl Default for SystemClock {
    fn default() -> (r: Self) {
        SystemClock
    }
}

/// `SystemTime::now().duration_since(UNIX_EPOCH)` in milliseconds, or
/// `None` when the system time is before the epoch.
///
/// Trusted: the standard library reads the system clock; nothing is stated
/// of the value, which depends on the time.
#[verifier::external_body]
fn unix_time_ms() -> Option<u128> {
    std::time::SystemTime::now().duration_since(std::time::UNIX_EPOCH).ok().map(|d| d.as_millis())
}

/// A reading of the system clock as `now_ms` reports it: the milliseconds
/// since the epoch saturated to `u64::MAX`, zero for a clock set before the
/// epoch.
pub open spec fn clock_reading(elapsed_ms: Option<u128>) -> u64 {
    match elapsed_ms {
        Some(ms) => if ms > u64::MAX {
            u64::MAX
        } else {
            ms as u64
        },
        None => 0,
    }
}

/// Turns the time elapsed since the epoch, if any, into a clock reading.
pub fn millis_since_epoch(elapsed_ms: Option<u128>) -> (r: u64)
    ensures
        r == clock_reading(elapsed_ms),
{
    match elapsed_ms {
        Some(ms) => if ms > u64::MAX as u128 {
            u64::MAX
        } else {
            ms as u64
        },
        None => 0,
    }
}

impl Clock for SystemClock {
    /// Milliseconds since the epoch, saturated to `u64::MAX`; a clock set
    /// before the epoch reads as zero. The reading depends on the time, so
    /// every value is a possible result.
    fn now_ms(&self) -> u64 {
        millis_since_epoch(unix_time_ms())
    }
}

#[derive(Debug, Clone, Copy, PartialEq, Eq, Structural)]
pub struct EngineLimits {
    pub max_memory_bytes: usize,
    pub max_value_bytes: usize,
}

impl Default for EngineLimits {
    fn default() -> (r: Self)
        ensures
            r.max_memory_bytes == 64 * 1024 * 1024,
            r.max_value_bytes == 8 * 1024 * 1024,
    {
        EngineLimits { max_memory_bytes: 67108864usize, max_value_bytes: 8388608usize }
    }
}

#[derive(Debug, Clone, Copy, PartialEq, Eq, Structural)]
pub struct EngineStats {
    pub expirations: u64,
    pub evictions: u64,
}

impl Default for EngineStats {
    fn default() -> (r: Self)
        ensures
            r.expirations == 0,
            r.evictions == 0,
    {
        EngineStats { expirations: 0, evictions: 0 }
    }
}

#[derive(Debug, Clone, Copy, PartialEq, Eq, Structural)]
pub struct PutOutcome {
    pub evicted: usize,
}

#[derive(Debug, Clone, Copy, PartialEq, Eq, Structural)]
pub enum PutError {
    ValueTooLarge { value_bytes: usize, max_value_bytes: usize },
    ValueTooLargeForMemory { entry_bytes: usize, max_memory_bytes: usize },
    InsufficientMemory { required_bytes: usize, memory_used_bytes: usize, max_memory_bytes: usize },
}

#[derive(Debug, Clone, PartialEq, Eq)]
pub struct PutCommand {
    pub namespace: String,
    pub key: Vec<u8>,
    pub value: Vec<u8>,
    pub ttl: Option<Ttl>,
    pub stale_ttl: Option<Ttl>,
    pub tags: Vec<String>,
    pub cost: Option<u64>,
}

#[derive(Debug, Clone, PartialEq, Eq)]
pub struct CompleteLeaseCommand {
    pub namespace: String,
    pub key: Vec<u8>,
    pub lease_token: String,
    pub value: Vec<u8>,
    pub ttl: Option<Ttl>,
    pub stale_ttl: Option<Ttl>,
    pub tags: Vec<String>,
    pub cost: Option<u64>,
}

#[derive(Debug, Clone, Copy, PartialEq, Eq, Structural)]
pub enum CompleteLeaseError {
    InvalidLeaseToken,
    Put(PutError),
}

#[derive(Debug, Clone, PartialEq, Eq)]
pub enum StartLeaseOutcome {
    Hit(Vec<u8>),
    Stale { value: Vec<u8> },
    LeaseGranted { token: String, stale_value: Option<Vec<u8>> },
    LeaseDenied,
}

#[derive(Debug, Clone, PartialEq, Eq)]
pub enum GetOutcome {
    Hit(Vec<u8>),
    Stale(Vec<u8>),
    Miss,
}

#[derive(Debug, Clone, Copy, PartialEq, Eq)]
pub enum GetOutcomeRef<'a> {
    Hit(&'a [u8]),
    Stale(&'a [u8]),
    Miss,
}

/// Where an entry stands at a moment.
#[derive(Debug, Clone, Copy, PartialEq, Eq, Structural)]
pub enum EntryState {
    Missing,
    Fresh,
    Stale,
    Expired,
}

struct Entry {
    namespace: String,
    key: Vec<u8>,
    value: Vec<u8>,
    expires_at_ms: Option<u64>,
    stale_until_ms: Option<u64>,
    tags: Vec<String>,
    cost: Option<u64>,
    memory_bytes: usize,
    last_access: u64,
}

struct Lease {
    namespace: String,
    key: Vec<u8>,
    token: String,
    expires_at_ms: u64,
}

// ---------------------------------------------------------------------------
// The model.
// ---------------------------------------------------------------------------

/// A stored entry: its id (namespace and key) and its data.
pub struct EntryModel {
    pub namespace: Seq<char>,
    pub key: Seq<u8>,
    pub value: Seq<u8>,
    pub expires_at_ms: Option<u64>,
    pub stale_until_ms: Option<u64>,
    pub tags: Seq<Seq<char>>,
    pub cost: Option<u64>,
    pub memory_bytes: usize,
    pub last_access: u64,
}

/// A lease on an id: who holds it (the token) and until when.
pub struct LeaseModel {
    pub namespace: Seq<char>,
    pub key: Seq<u8>,
    pub token: Seq<char>,
    pub expires_at_ms: u64,
}

/// The engine's state. Entries are kept in the order in which they were
/// stored; that order decides which entries eviction samples.
pub struct EngineModel {
    pub entries: Seq<EntryModel>,
    pub leases: Seq<LeaseModel>,
    pub limits: EngineLimits,
    pub memory_used_bytes: usize,
    pub cost_score_total: u64,
    pub next_access: u64,
    pub stats: EngineStats,
}

impl View for Entry {
    type V = EntryModel;

    closed spec fn view(&self) -> EntryModel {
        EntryModel {
            namespace: self.namespace@,
            key: self.key@,
            value: self.value@,
            expires_at_ms: self.expires_at_ms,
            stale_until_ms: self.stale_until_ms,
            tags: self.tags@.map_values(|t: String| t@),
            cost: self.cost,
            memory_bytes: self.memory_bytes,
            last_access: self.last_access,
        }
    }
}

impl View for Lease {
    type V = LeaseModel;

    closed spec fn view(&self) -> LeaseModel {
        LeaseModel {
            namespace: self.namespace@,
            key: self.key@,
            token: self.token@,
            expires_at_ms: self.expires_at_ms,
        }
    }
}

pub open spec fn sat_add_usize(a: int, b: int) -> usize {
    if a + b > usize::MAX {
        usize::MAX
    } else {
        (a + b) as usize
    }
}

pub open spec fn sat_sub_usize(a: int, b: int) -> usize {
    if a - b < 0 {
        0
    } else {
        (a - b) as usize
    }
}

pub open spec fn sat_add_u64(a: int, b: int) -> u64 {
    if a + b > u64::MAX {
        u64::MAX
    } else {
        (a + b) as u64
    }
}

pub open spec fn sat_sub_u64(a: int, b: int) -> u64 {
    if a - b < 0 {
        0
    } else {
        (a - b) as u64
    }
}

/// The entry with this id.
pub open spec fn is_entry(ns: Seq<char>, key: Seq<u8>) -> spec_fn(EntryModel) -> bool {
    |e: EntryModel| e.namespace == ns && e.key == key
}

/// The lease on this id.
pub open spec fn is_lease(ns: Seq<char>, key: Seq<u8>) -> spec_fn(LeaseModel) -> bool {
    |l: LeaseModel| l.namespace == ns && l.key == key
}

/// Where the entry with this id is stored, -1 when there is none.
pub open spec fn entry_index(es: Seq<EntryModel>, ns: Seq<char>, key: Seq<u8>) -> int {
    find_first(es, is_entry(ns, key), es.len() as int)
}

/// Where the lease on this id is, -1 when there is none.
pub open spec fn lease_index(ls: Seq<LeaseModel>, ns: Seq<char>, key: Seq<u8>) -> int {
    find_first(ls, is_lease(ns, key), ls.len() as int)
}

/// No two entries share an id.
pub open spec fn entries_unique(es: Seq<EntryModel>) -> bool {
    forall|i: int, j: int|
        0 <= i < j < es.len() ==> !(#[trigger] es[i].namespace == #[trigger] es[j].namespace
            && es[i].key == es[j].key)
}

/// No two leases share an id.
pub open spec fn leases_unique(ls: Seq<LeaseModel>) -> bool {
    forall|i: int, j: int|
        0 <= i < j < ls.len() ==> !(#[trigger] ls[i].namespace == #[trigger] ls[j].namespace
            && ls[i].key == ls[j].key)
}

/// No two entries share an id, and no two leases do.
pub open spec fn ids_unique(m: EngineModel) -> bool {
    entries_unique(m.entries) && leases_unique(m.leases)
}

pub proof fn lemma_entries_remove_unique(es: Seq<EntryModel>, i: int)
    requires
        entries_unique(es),
        0 <= i < es.len(),
    ensures
        entries_unique(es.remove(i)),
{
    let r = es.remove(i);
    assert forall|a: int, b: int| 0 <= a < b < r.len() implies !(#[trigger] r[a].namespace
        == #[trigger] r[b].namespace && r[a].key == r[b].key) by {
        let a0 = if a < i {
            a
        } else {
            a + 1
        };
        let b0 = if b < i {
            b
        } else {
            b + 1
        };
        assert(r[a] == es[a0] && r[b] == es[b0]);
        assert(es[a0].namespace == es[a0].namespace);
    }
}

pub proof fn lemma_leases_remove_unique(ls: Seq<LeaseModel>, i: int)
    requires
        leases_unique(ls),
        0 <= i < ls.len(),
    ensures
        leases_unique(ls.remove(i)),
{
    let r = ls.remove(i);
    assert forall|a: int, b: int| 0 <= a < b < r.len() implies !(#[trigger] r[a].namespace
        == #[trigger] r[b].namespace && r[a].key == r[b].key) by {
        let a0 = if a < i {
            a
        } else {
            a + 1
        };
        let b0 = if b < i {
            b
        } else {
            b + 1
        };
        assert(r[a] == ls[a0] && r[b] == ls[b0]);
        assert(ls[a0].namespace == ls[a0].namespace);
    }
}

/// The engine's invariant: ids are unique, and the memory in use never
/// exceeds the memory cap.
pub open spec fn engine_wf(m: EngineModel) -> bool {
    &&& ids_unique(m)
    &&& m.memory_used_bytes <= m.limits.max_memory_bytes
}

/// The memory in use is the memory of the stored entries, under any memory
/// cap short of the largest `usize` (there a write's size and the memory in
/// use could add up past what the counter holds, and it stops).
pub open spec fn memory_kept(m: EngineModel) -> bool {
    m.limits.max_memory_bytes < usize::MAX ==> crate::accounting::memory_exact(m)
}

/// The invariant of an engine: no id twice, memory within the cap, and the
/// memory counter exact (`memory_kept`).
pub open spec fn engine_inv(m: EngineModel) -> bool {
    engine_wf(m) && memory_kept(m)
}

/// The lease on an id with that lease removed; unchanged when there is none.
pub open spec fn without_lease(ls: Seq<LeaseModel>, ns: Seq<char>, key: Seq<u8>) -> Seq<
    LeaseModel,
> {
    let i = lease_index(ls, ns, key);
    if i >= 0 {
        ls.remove(i)
    } else {
        ls
    }
}

/// Removing the entry at index `i`: its lease goes with it, and its memory
/// and cost leave the totals.
pub open spec fn remove_at(m: EngineModel, i: int) -> EngineModel {
    let e = m.entries[i];
    EngineModel {
        entries: m.entries.remove(i),
        leases: without_lease(m.leases, e.namespace, e.key),
        memory_used_bytes: sat_sub_usize(m.memory_used_bytes as int, e.memory_bytes as int),
        cost_score_total: sat_sub_u64(
            m.cost_score_total as int,
            match e.cost {
                Some(c) => c as int,
                None => 0,
            },
        ),
        ..m
    }
}

/// Removing an entry that has expired, at index `i`: its memory and cost
/// leave the totals, and a lease on its id stays, so that whoever is
/// refreshing the value keeps the right to.
pub open spec fn expire_at(m: EngineModel, i: int) -> EngineModel {
    EngineModel { leases: m.leases, ..remove_at(m, i) }
}

/// Removing the entry with an id, if there is one; whether there was.
pub open spec fn remove_entry(m: EngineModel, ns: Seq<char>, key: Seq<u8>) -> (bool, EngineModel) {
    let i = entry_index(m.entries, ns, key);
    if i >= 0 {
        (true, remove_at(m, i))
    } else {
        (false, m)
    }
}


/// When an entry stops being servable at all: the end of its stale window,
/// or else its expiry; never for an entry without expiry.
pub open spec fn removable_at(e: EntryModel) -> Option<u64> {
    match e.stale_until_ms {
        Some(s) => Some(s),
        None => e.expires_at_ms,
    }
}

/// An entry without expiry is always fresh; up to its expiry it is fresh,
/// then stale up to the end of its stale window, then expired.
pub open spec fn state_at(e: EntryModel, now: u64) -> EntryState {
    match e.expires_at_ms {
        None => EntryState::Fresh,
        Some(x) => if now <= x {
            EntryState::Fresh
        } else {
            match e.stale_until_ms {
                Some(s) => if now <= s {
                    EntryState::Stale
                } else {
                    EntryState::Expired
                },
                None => EntryState::Expired,
            }
        },
    }
}

/// What a read reports.
pub enum GetModel {
    Hit(Seq<u8>),
    Stale(Seq<u8>),
    Miss,
}

impl View for GetOutcome {
    type V = GetModel;

    open spec fn view(&self) -> GetModel {
        match self {
            GetOutcome::Hit(v) => GetModel::Hit(v@),
            GetOutcome::Stale(v) => GetModel::Stale(v@),
            GetOutcome::Miss => GetModel::Miss,
        }
    }
}

impl<'a> View for GetOutcomeRef<'a> {
    type V = GetModel;

    open spec fn view(&self) -> GetModel {
        match self {
            GetOutcomeRef::Hit(v) => GetModel::Hit(v@),
            GetOutcomeRef::Stale(v) => GetModel::Stale(v@),
            GetOutcomeRef::Miss => GetModel::Miss,
        }
    }
}

/// Recording an access to the entry at `i`: it takes the next access
/// number.
pub open spec fn touch(m: EngineModel, i: int) -> EngineModel {
    EngineModel {
        entries: m.entries.update(i, EntryModel { last_access: m.next_access, ..m.entries[i] }),
        next_access: sat_add_u64(m.next_access as int, 1),
        ..m
    }
}

/// A read of an id at `now`: a miss when absent; an expired entry is
/// removed (a lease on its id stays) and reads as a miss; a fresh or stale entry
/// reads as its value and, when `update_access`, counts as an access.
pub open spec fn get_at(m: EngineModel, ns: Seq<char>, key: Seq<u8>, now: u64, update_access: bool) -> (
    GetModel,
    EngineModel,
) {
    let i = entry_index(m.entries, ns, key);
    if i < 0 {
        (GetModel::Miss, m)
    } else {
        let e = m.entries[i];
        match state_at(e, now) {
            EntryState::Fresh => (
                GetModel::Hit(e.value),
                if update_access {
                    touch(m, i)
                } else {
                    m
                },
            ),
            EntryState::Stale => (
                GetModel::Stale(e.value),
                if update_access {
                    touch(m, i)
                } else {
                    m
                },
            ),
            _ => (GetModel::Miss, expire_at(m, i)),
        }
    }
}

/// Whether an entry can be reclaimed at `now`: its expiry, or the end of
/// its stale window when it has one, has passed, so that a read would find
/// it expired.
pub open spec fn expired_at(e: EntryModel, now: u64) -> bool {
    match removable_at(e) {
        Some(t) => t < now,
        None => false,
    }
}

/// The order in which expired entries are reclaimed: by the time they
/// became removable, then by namespace, then by key.
pub open spec fn expiry_before(a: EntryModel, b: EntryModel) -> bool {
    let ta = match removable_at(a) {
        Some(t) => t,
        None => 0,
    };
    let tb = match removable_at(b) {
        Some(t) => t,
        None => 0,
    };
    ta < tb || (ta == tb && (seq_lt(text_bytes(a.namespace), text_bytes(b.namespace)) || (
    a.namespace == b.namespace && seq_lt(a.key, b.key))))
}

/// The first expired entry in reclaim order among `es[0..n]`, -1 if none.
pub open spec fn first_expired(es: Seq<EntryModel>, now: u64, n: int) -> int
    decreases n,
{
    if n <= 0 {
        -1
    } else {
        let best = first_expired(es, now, n - 1);
        if !expired_at(es[n - 1], now) {
            best
        } else if best < 0 {
            n - 1
        } else if expiry_before(es[n - 1], es[best]) {
            n - 1
        } else {
            best
        }
    }
}

/// Reclaiming up to `budget` expired entries at `now`, first in reclaim
/// order first, each counted as an expiration; how many were reclaimed.
pub open spec fn reclaim(m: EngineModel, now: u64, budget: nat) -> (nat, EngineModel)
    decreases budget,
{
    if budget == 0 {
        (0, m)
    } else {
        let i = first_expired(m.entries, now, m.entries.len() as int);
        if i < 0 {
            (0, m)
        } else {
            let m1 = expire_at(m, i);
            let m2 = EngineModel {
                stats: EngineStats {
                    expirations: sat_add_u64(m1.stats.expirations as int, 1),
                    ..m1.stats
                },
                ..m1
            };
            let (c, m3) = reclaim(m2, now, (budget - 1) as nat);
            (c + 1, m3)
        }
    }
}

/// The least recently accessed entry among `es[0..n]`, the first one on a
/// tie.
pub open spec fn least_recent(es: Seq<EntryModel>, n: int) -> int
    decreases n,
{
    if n <= 1 {
        0
    } else {
        let best = least_recent(es, n - 1);
        if es[n - 1].last_access < es[best].last_access {
            n - 1
        } else {
            best
        }
    }
}

/// How many stored entries eviction looks at.
pub open spec fn lru_sample(m: EngineModel) -> int {
    if m.entries.len() < 16 {
        m.entries.len() as int
    } else {
        16
    }
}

/// Whether `incoming` more bytes fit under the memory cap.
pub open spec fn fits(m: EngineModel, incoming: usize) -> bool {
    sat_add_usize(m.memory_used_bytes as int, incoming as int) <= m.limits.max_memory_bytes
}

/// Evicting, while `incoming` bytes do not fit and entries remain, the
/// least recently accessed of the sampled entries, each counted as an
/// eviction; how many were evicted. `fuel` bounds the rounds.
pub open spec fn evict(m: EngineModel, incoming: usize, fuel: nat) -> (nat, EngineModel)
    decreases fuel,
{
    if fits(m, incoming) || m.entries.len() == 0 || fuel == 0 {
        (0, m)
    } else {
        let i = least_recent(m.entries, lru_sample(m));
        let m1 = remove_at(m, i);
        let m2 = EngineModel {
            stats: EngineStats { evictions: sat_add_u64(m1.stats.evictions as int, 1), ..m1.stats },
            ..m1
        };
        let (c, m3) = evict(m2, incoming, (fuel - 1) as nat);
        (c + 1, m3)
    }
}

/// A write as the engine receives it.
pub struct PutModel {
    pub namespace: Seq<char>,
    pub key: Seq<u8>,
    pub value: Seq<u8>,
    pub ttl: Option<Ttl>,
    pub stale_ttl: Option<Ttl>,
    pub tags: Seq<Seq<char>>,
    pub cost: Option<u64>,
}

impl View for PutCommand {
    type V = PutModel;

    open spec fn view(&self) -> PutModel {
        PutModel {
            namespace: self.namespace@,
            key: self.key@,
            value: self.value@,
            ttl: self.ttl,
            stale_ttl: self.stale_ttl,
            tags: self.tags@.map_values(|t: String| t@),
            cost: self.cost,
        }
    }
}

/// The total UTF-8 length of a list of tags.
pub open spec fn tags_bytes(tags: Seq<Seq<char>>) -> int
    decreases tags.len(),
{
    if tags.len() == 0 {
        0
    } else {
        tags_bytes(tags.drop_last()) + text_bytes(tags.last()).len()
    }
}

proof fn lemma_tags_bytes_nonneg(tags: Seq<Seq<char>>)
    ensures
        tags_bytes(tags) >= 0,
    decreases tags.len(),
{
    if tags.len() > 0 {
        lemma_tags_bytes_nonneg(tags.drop_last());
    }
}

/// The memory an entry is accounted for: a fixed overhead plus the bytes of
/// its namespace, key, value and tags, saturated at `usize::MAX`.
pub open spec fn entry_memory(c: PutModel) -> usize {
    sat_add_usize(
        (96 + text_bytes(c.namespace).len() + c.key.len() + c.value.len()) as int,
        tags_bytes(c.tags),
    )
}

/// A write at `now`. A value over the value limit, or an entry over the
/// whole memory cap, is refused with nothing changed. Otherwise the old
/// entry with that id goes (with its lease); when the new entry does not
/// fit, expired entries are reclaimed; then least recently used entries
/// are evicted until it fits or none remain. If it still does not fit the
/// write fails, the removals standing. Otherwise the entry is appended:
/// expiry `now + ttl`, stale window `ttl_stale` beyond the expiry when both
/// are given, the next access number; memory and cost are added.
pub open spec fn put_at(m: EngineModel, c: PutModel, now: u64) -> (
    Result<PutOutcome, PutError>,
    EngineModel,
) {
    let mem = entry_memory(c);
    if c.value.len() > m.limits.max_value_bytes {
        (
            Err(
                PutError::ValueTooLarge {
                    value_bytes: c.value.len() as usize,
                    max_value_bytes: m.limits.max_value_bytes,
                },
            ),
            m,
        )
    } else if mem > m.limits.max_memory_bytes {
        (
            Err(
                PutError::ValueTooLargeForMemory {
                    entry_bytes: mem,
                    max_memory_bytes: m.limits.max_memory_bytes,
                },
            ),
            m,
        )
    } else {
        let m1 = remove_entry(m, c.namespace, c.key).1;
        let m2 = if !fits(m1, mem) {
            reclaim(m1, now, usize::MAX as nat).1
        } else {
            m1
        };
        let (evicted, m3) = evict(m2, mem, m2.entries.len());
        if !fits(m3, mem) {
            (
                Err(
                    PutError::InsufficientMemory {
                        required_bytes: mem,
                        memory_used_bytes: m3.memory_used_bytes,
                        max_memory_bytes: m3.limits.max_memory_bytes,
                    },
                ),
                m3,
            )
        } else {
            let expires = match c.ttl {
                Some(t) => Some(sat_add_u64(now as int, t.milliseconds as int)),
                None => None,
            };
            let stale = match (expires, c.stale_ttl) {
                (Some(x), Some(s)) => Some(sat_add_u64(x as int, s.milliseconds as int)),
                _ => None,
            };
            let entry = EntryModel {
                namespace: c.namespace,
                key: c.key,
                value: c.value,
                expires_at_ms: expires,
                stale_until_ms: stale,
                tags: c.tags,
                cost: c.cost,
                memory_bytes: mem,
                last_access: m3.next_access,
            };
            (
                Ok(PutOutcome { evicted: evicted as usize }),
                EngineModel {
                    entries: m3.entries.push(entry),
                    memory_used_bytes: sat_add_usize(m3.memory_used_bytes as int, mem as int),
                    cost_score_total: sat_add_u64(
                        m3.cost_score_total as int,
                        match c.cost {
                            Some(v) => v as int,
                            None => 0,
                        },
                    ),
                    next_access: sat_add_u64(m3.next_access as int, 1),
                    ..m3
                },
            )
        }
    }
}


/// The token of the lease created at access number `n`: `lease-<n>`.
pub open spec fn lease_token(n: u64) -> Seq<char> {
    seq!['l', 'e', 'a', 's', 'e', '-'] + decimal(n as nat)
}

/// The lease on an id that is still running at `now`.
pub open spec fn active_lease(m: EngineModel, ns: Seq<char>, key: Seq<u8>, now: u64) -> Option<
    LeaseModel,
> {
    let i = lease_index(m.leases, ns, key);
    if i >= 0 && now <= m.leases[i].expires_at_ms {
        Some(m.leases[i])
    } else {
        None
    }
}

/// Granting a lease on an id at `now`: a new token from the access counter,
/// running for `ttl` milliseconds, replacing any lease on that id.
pub open spec fn create_lease(m: EngineModel, ns: Seq<char>, key: Seq<u8>, ttl: u64, now: u64) -> (
    Seq<char>,
    EngineModel,
) {
    let token = lease_token(m.next_access);
    let lease = LeaseModel {
        namespace: ns,
        key,
        token,
        expires_at_ms: sat_add_u64(now as int, ttl as int),
    };
    let i = lease_index(m.leases, ns, key);
    (
        token,
        EngineModel {
            leases: if i >= 0 {
                m.leases.update(i, lease)
            } else {
                m.leases.push(lease)
            },
            next_access: sat_add_u64(m.next_access as int, 1),
            ..m
        },
    )
}

/// What a lease request reports.
pub enum StartLeaseModel {
    Hit(Seq<u8>),
    Stale(Seq<u8>),
    Granted { token: Seq<char>, stale_value: Option<Seq<u8>> },
    Denied,
}

impl View for StartLeaseOutcome {
    type V = StartLeaseModel;

    open spec fn view(&self) -> StartLeaseModel {
        match self {
            StartLeaseOutcome::Hit(v) => StartLeaseModel::Hit(v@),
            StartLeaseOutcome::Stale { value } => StartLeaseModel::Stale(value@),
            StartLeaseOutcome::LeaseGranted { token, stale_value } => StartLeaseModel::Granted {
                token: token@,
                stale_value: match stale_value {
                    Some(v) => Some(v@),
                    None => None,
                },
            },
            StartLeaseOutcome::LeaseDenied => StartLeaseModel::Denied,
        }
    }
}

/// A lease request at `now`. A fresh value is served (and accessed). A
/// stale value is served as stale while someone holds the lease, else the
/// caller gets the lease together with the stale value. An expired value,
/// or no value, gets the caller the lease unless someone holds it; an
/// expired value is removed when the lease is granted.
pub open spec fn start_lease_at(m: EngineModel, ns: Seq<char>, key: Seq<u8>, ttl: u64, now: u64) -> (
    StartLeaseModel,
    EngineModel,
) {
    let held = active_lease(m, ns, key, now) is Some;
    let i = entry_index(m.entries, ns, key);
    if i < 0 {
        if held {
            (StartLeaseModel::Denied, m)
        } else {
            let (token, m1) = create_lease(m, ns, key, ttl, now);
            (StartLeaseModel::Granted { token, stale_value: None }, m1)
        }
    } else {
        let e = m.entries[i];
        match state_at(e, now) {
            EntryState::Fresh => (StartLeaseModel::Hit(e.value), touch(m, i)),
            EntryState::Stale => if held {
                (StartLeaseModel::Stale(e.value), touch(m, i))
            } else {
                let (token, m1) = create_lease(touch(m, i), ns, key, ttl, now);
                (StartLeaseModel::Granted { token, stale_value: Some(e.value) }, m1)
            },
            _ => if held {
                (StartLeaseModel::Denied, m)
            } else {
                let (token, m1) = create_lease(remove_at(m, i), ns, key, ttl, now);
                (StartLeaseModel::Granted { token, stale_value: None }, m1)
            },
        }
    }
}

/// A lease completion as the engine receives it.
pub struct CompleteLeaseModel {
    pub token: Seq<char>,
    pub put: PutModel,
}

impl View for CompleteLeaseCommand {
    type V = CompleteLeaseModel;

    open spec fn view(&self) -> CompleteLeaseModel {
        CompleteLeaseModel {
            token: self.lease_token@,
            put: PutModel {
                namespace: self.namespace@,
                key: self.key@,
                value: self.value@,
                ttl: self.ttl,
                stale_ttl: self.stale_ttl,
                tags: self.tags@.map_values(|t: String| t@),
                cost: self.cost,
            },
        }
    }
}

/// Completing a lease at `now`: without a running lease on the id the
/// token is refused and a lapsed lease is dropped; with a running lease of
/// another token it is refused with nothing changed; with the right token
/// the lease ends and the value is written as by `put_at`.
pub open spec fn complete_lease_at(m: EngineModel, c: CompleteLeaseModel, now: u64) -> (
    Result<PutOutcome, CompleteLeaseError>,
    EngineModel,
) {
    let ns = c.put.namespace;
    let key = c.put.key;
    match active_lease(m, ns, key, now) {
        None => (
            Err(CompleteLeaseError::InvalidLeaseToken),
            EngineModel { leases: without_lease(m.leases, ns, key), ..m },
        ),
        Some(l) => if l.token != c.token {
            (Err(CompleteLeaseError::InvalidLeaseToken), m)
        } else {
            let m1 = EngineModel { leases: without_lease(m.leases, ns, key), ..m };
            let (r, m2) = put_at(m1, c.put, now);
            (
                match r {
                    Ok(o) => Ok(o),
                    Err(e) => Err(CompleteLeaseError::Put(e)),
                },
                m2,
            )
        },
    }
}

/// Deleting an id: its lease and its entry go; whether there was an entry.
pub open spec fn delete(m: EngineModel, ns: Seq<char>, key: Seq<u8>) -> (bool, EngineModel) {
    remove_entry(EngineModel { leases: without_lease(m.leases, ns, key), ..m }, ns, key)
}

/// An entry of the namespace that carries the tag.
pub open spec fn has_tag(ns: Seq<char>, tag: Seq<char>) -> spec_fn(EntryModel) -> bool {
    |e: EntryModel| e.namespace == ns && e.tags.contains(tag)
}

/// Invalidating a tag in a namespace: every entry of that namespace that
/// carries the tag is removed (with its lease); how many. `fuel` bounds
/// the rounds.
pub open spec fn invalidate(m: EngineModel, ns: Seq<char>, tag: Seq<char>, fuel: nat) -> (
    nat,
    EngineModel,
)
    decreases fuel,
{
    let i = find_first(m.entries, has_tag(ns, tag), m.entries.len() as int);
    if fuel == 0 || i < 0 {
        (0, m)
    } else {
        let (c, m1) = invalidate(remove_at(m, i), ns, tag, (fuel - 1) as nat);
        (c + 1, m1)
    }
}


/// The default limits: 64 MiB of memory, 8 MiB per value.
pub open spec fn default_limits() -> EngineLimits {
    EngineLimits { max_memory_bytes: 67108864usize, max_value_bytes: 8388608usize }
}

/// An empty engine with the given limits.
pub open spec fn empty_engine(limits: EngineLimits) -> EngineModel {
    EngineModel {
        entries: Seq::empty(),
        leases: Seq::empty(),
        limits,
        memory_used_bytes: 0,
        cost_score_total: 0,
        next_access: 0,
        stats: EngineStats { expirations: 0, evictions: 0 },
    }
}


/// No stored entry has this id.
pub open spec fn absent(es: Seq<EntryModel>, ns: Seq<char>, key: Seq<u8>) -> bool {
    forall|j: int| 0 <= j < es.len() ==> !is_entry(ns, key)(#[trigger] es[j])
}

pub proof fn lemma_absent_remove_at(m: EngineModel, i: int, ns: Seq<char>, key: Seq<u8>)
    requires
        absent(m.entries, ns, key),
        0 <= i < m.entries.len(),
    ensures
        absent(remove_at(m, i).entries, ns, key),
{
    let r = m.entries.remove(i);
    assert forall|j: int| 0 <= j < r.len() implies !is_entry(ns, key)(#[trigger] r[j]) by {
        if j < i {
            assert(r[j] == m.entries[j]);
        } else {
            assert(r[j] == m.entries[j + 1]);
        }
    }
}

/// After removing the entry with an id, no entry has that id.
pub proof fn lemma_remove_entry_absent(m: EngineModel, ns: Seq<char>, key: Seq<u8>)
    requires
        entries_unique(m.entries),
    ensures
        absent(remove_entry(m, ns, key).1.entries, ns, key),
{
    let es = m.entries;
    let p = is_entry(ns, key);
    lemma_find_first(es, p, es.len() as int);
    let i = entry_index(es, ns, key);
    if i >= 0 {
        let r = es.remove(i);
        assert forall|j: int| 0 <= j < r.len() implies !p(#[trigger] r[j]) by {
            if j < i {
                assert(r[j] == es[j]);
                assert(!(es[j].namespace == es[i].namespace && es[j].key == es[i].key));
            } else {
                assert(r[j] == es[j + 1]);
                assert(!(es[i].namespace == es[j + 1].namespace && es[i].key == es[j + 1].key));
            }
        }
    }
}

pub proof fn lemma_first_expired_range(es: Seq<EntryModel>, now: u64, n: int)
    requires
        0 <= n <= es.len(),
    ensures
        -1 <= first_expired(es, now, n) < n,
    decreases n,
{
    if n > 0 {
        lemma_first_expired_range(es, now, n - 1);
    }
}

/// Reclaiming never takes more entries than its budget.
pub proof fn lemma_reclaim_le_budget(m: EngineModel, now: u64, budget: nat)
    ensures
        reclaim(m, now, budget).0 <= budget,
    decreases budget,
{
    if budget > 0 {
        let i = first_expired(m.entries, now, m.entries.len() as int);
        if i >= 0 {
            let m1 = expire_at(m, i);
            let m2 = EngineModel {
                stats: EngineStats {
                    expirations: sat_add_u64(m1.stats.expirations as int, 1),
                    ..m1.stats
                },
                ..m1
            };
            lemma_reclaim_le_budget(m2, now, (budget - 1) as nat);
        }
    }
}

pub proof fn lemma_least_recent_range(es: Seq<EntryModel>, n: int)
    requires
        1 <= n <= es.len(),
    ensures
        0 <= least_recent(es, n) < n,
    decreases n,
{
    if n > 1 {
        lemma_least_recent_range(es, n - 1);
    }
}

pub proof fn lemma_absent_reclaim(m: EngineModel, now: u64, budget: nat, ns: Seq<char>, key: Seq<u8>)
    requires
        absent(m.entries, ns, key),
    ensures
        absent(reclaim(m, now, budget).1.entries, ns, key),
    decreases budget,
{
    if budget > 0 {
        let i = first_expired(m.entries, now, m.entries.len() as int);
        lemma_first_expired_range(m.entries, now, m.entries.len() as int);
        if i >= 0 {
            lemma_absent_remove_at(m, i, ns, key);
            assert(expire_at(m, i).entries == remove_at(m, i).entries);
            let m1 = expire_at(m, i);
            let m2 = EngineModel {
                stats: EngineStats {
                    expirations: sat_add_u64(m1.stats.expirations as int, 1),
                    ..m1.stats
                },
                ..m1
            };
            lemma_absent_reclaim(m2, now, (budget - 1) as nat, ns, key);
        }
    }
}

pub proof fn lemma_absent_evict(m: EngineModel, incoming: usize, fuel: nat, ns: Seq<char>, key: Seq<u8>)
    requires
        absent(m.entries, ns, key),
    ensures
        absent(evict(m, incoming, fuel).1.entries, ns, key),
    decreases fuel,
{
    if !(fits(m, incoming) || m.entries.len() == 0 || fuel == 0) {
        let i = least_recent(m.entries, lru_sample(m));
        lemma_least_recent_range(m.entries, lru_sample(m));
        lemma_absent_remove_at(m, i, ns, key);
        let m1 = remove_at(m, i);
        let m2 = EngineModel {
            stats: EngineStats { evictions: sat_add_u64(m1.stats.evictions as int, 1), ..m1.stats },
            ..m1
        };
        lemma_absent_evict(m2, incoming, (fuel - 1) as nat, ns, key);
    }
}

proof fn lemma_push_unique(es: Seq<EntryModel>, e: EntryModel)
    requires
        entries_unique(es),
        absent(es, e.namespace, e.key),
    ensures
        entries_unique(es.push(e)),
{
    let r = es.push(e);
    assert forall|a: int, b: int| 0 <= a < b < r.len() implies !(#[trigger] r[a].namespace
        == #[trigger] r[b].namespace && r[a].key == r[b].key) by {
        if b == es.len() {
            assert(r[a] == es[a]);
            assert(!is_entry(e.namespace, e.key)(es[a]));
        } else {
            assert(r[a] == es[a] && r[b] == es[b]);
            assert(es[a].namespace == es[a].namespace);
        }
    }
}


proof fn lemma_leases_update_unique(ls: Seq<LeaseModel>, i: int, l: LeaseModel)
    requires
        leases_unique(ls),
        0 <= i < ls.len(),
        l.namespace == ls[i].namespace,
        l.key == ls[i].key,
    ensures
        leases_unique(ls.update(i, l)),
{
    let r = ls.update(i, l);
    assert forall|a: int, b: int| 0 <= a < b < r.len() implies !(#[trigger] r[a].namespace
        == #[trigger] r[b].namespace && r[a].key == r[b].key) by {
        assert(ls[a].namespace == ls[a].namespace);
        assert(ls[b].namespace == ls[b].namespace);
    }
}

proof fn lemma_leases_push_unique(ls: Seq<LeaseModel>, l: LeaseModel)
    requires
        leases_unique(ls),
        lease_index(ls, l.namespace, l.key) == -1,
    ensures
        leases_unique(ls.push(l)),
{
    lemma_find_first(ls, is_lease(l.namespace, l.key), ls.len() as int);
    let r = ls.push(l);
    assert forall|a: int, b: int| 0 <= a < b < r.len() implies !(#[trigger] r[a].namespace
        == #[trigger] r[b].namespace && r[a].key == r[b].key) by {
        if b == ls.len() {
            assert(r[a] == ls[a]);
            assert(!is_lease(l.namespace, l.key)(ls[a]));
        } else {
            assert(r[a] == ls[a] && r[b] == ls[b]);
            assert(ls[a].namespace == ls[a].namespace);
        }
    }
}

/// The views of a list of keys.
pub open spec fn keys_view(keys: Seq<Vec<u8>>) -> Seq<Seq<u8>> {
    keys.map_values(|k: Vec<u8>| k@)
}

/// The views of a list of read outcomes.
pub open spec fn outcomes_view(rs: Seq<GetOutcome>) -> Seq<GetModel> {
    rs.map_values(|g: GetOutcome| g@)
}

/// Reads of several keys of a namespace, one after the other, the read of
/// `keys[i]` made at `times[i]`; what each reported.
pub open spec fn batch_get_at(m: EngineModel, ns: Seq<char>, keys: Seq<Seq<u8>>, times: Seq<u64>) -> (
    Seq<GetModel>,
    EngineModel,
)
    decreases keys.len(),
{
    if keys.len() == 0 {
        (Seq::empty(), m)
    } else {
        let (rs, m1) = batch_get_at(m, ns, keys.drop_last(), times.drop_last());
        let (g, m2) = get_at(m1, ns, keys.last(), times.last(), true);
        (rs.push(g), m2)
    }
}


/// The tags of the entry with an id; none when there is no such entry.
pub open spec fn entry_tags(m: EngineModel, ns: Seq<char>, key: Seq<u8>) -> Seq<Seq<char>> {
    let i = entry_index(m.entries, ns, key);
    if i >= 0 {
        m.entries[i].tags
    } else {
        Seq::empty()
    }
}

/// Whether some entry of the namespace carries the tag.
pub open spec fn shard_has_tag(m: EngineModel, ns: Seq<char>, tag: Seq<char>) -> bool {
    find_first(m.entries, has_tag(ns, tag), m.entries.len() as int) >= 0
}

/// The views of a list of strings.
pub open spec fn strings_view(v: Seq<String>) -> Seq<Seq<char>> {
    v.map_values(|t: String| t@)
}

/// A copy of a list of strings.
pub fn copy_strings(v: &Vec<String>) -> (r: Vec<String>)
    ensures
        strings_view(r@) == strings_view(v@),
{
    let mut r: Vec<String> = Vec::new();
    let mut i: usize = 0;
    while i < v.len()
        invariant
            0 <= i <= v@.len(),
            strings_view(r@) == strings_view(v@).take(i as int),
        decreases v@.len() - i,
    {
        let t = v[i].clone();
        let ghost prev = r@;
        r.push(t);
        assert(strings_view(r@) =~= strings_view(prev).push(v@[i as int]@));
        assert(strings_view(v@).take(i as int + 1) =~= strings_view(v@).take(i as int).push(
            v@[i as int]@,
        ));
        i = i + 1;
    }
    assert(strings_view(v@).take(v@.len() as int) =~= strings_view(v@));
    r
}

pub struct Engine<C: Clock = SystemClock> {
    clock: C,
    entries: Vec<Entry>,
    leases: Vec<Lease>,
    limits: EngineLimits,
    memory_used_bytes: usize,
    cost_score_total: u64,
    next_access: u64,
    stats: EngineStats,
}


/// The memory an entry with these parts is accounted for.
fn estimate_entry_memory(namespace: &str, key: &[u8], value: &[u8], tags: &Vec<String>) -> (r: usize)
    ensures
        r == sat_add_usize(
            (96 + text_bytes(namespace@).len() + key@.len() + value@.len()) as int,
            tags_bytes(tags@.map_values(|t: String| t@)),
        ),
{
    let ghost ts = tags@.map_values(|t: String| t@);
    let mut tag_total: usize = 0;
    let mut i: usize = 0;
    while i < tags.len()
        invariant
            ts == tags@.map_values(|t: String| t@),
            0 <= i <= tags.len(),
            tag_total as int == if tags_bytes(ts.take(i as int)) > usize::MAX {
                usize::MAX as int
            } else {
                tags_bytes(ts.take(i as int))
            },
        decreases tags.len() - i,
    {
        assert(ts.take(i as int + 1).drop_last() =~= ts.take(i as int));
        assert(ts.take(i as int + 1).last() == tags@[i as int]@);
        proof {
            lemma_tags_bytes_nonneg(ts.take(i as int));
        }
        let n = tags[i].as_str().as_bytes().len();
        assert(n == text_bytes(tags@[i as int]@).len());
        tag_total = tag_total.saturating_add(n);
        i = i + 1;
    }
    assert(ts.take(tags.len() as int) =~= ts);
    proof {
        lemma_tags_bytes_nonneg(ts);
    }
    ENTRY_OVERHEAD_BYTES.saturating_add(namespace.as_bytes().len()).saturating_add(key.len()).saturating_add(
        value.len(),
    ).saturating_add(tag_total)
}


impl<C: Clock> View for Engine<C> {
    type V = EngineModel;

    closed spec fn view(&self) -> EngineModel {
        EngineModel {
            entries: self.entries@.map_values(|e: Entry| e@),
            leases: self.leases@.map_values(|l: Lease| l@),
            limits: self.limits,
            memory_used_bytes: self.memory_used_bytes,
            cost_score_total: self.cost_score_total,
            next_access: self.next_access,
            stats: self.stats,
        }
    }
}

impl Engine<SystemClock> {
    pub fn new() -> (r: Self)
        ensures
            r.wf(),
            r@ == empty_engine(default_limits()),
    {
        Self::with_clock_and_limits(SystemClock, EngineLimits::default())
    }

    pub fn with_limits(limits: EngineLimits) -> (r: Self)
        ensures
            r.wf(),
            r@ == empty_engine(limits),
    {
        Self::with_clock_and_limits(SystemClock, limits)
    }
}

impl Default for Engine<SystemClock> {
    fn default() -> (r: Self)
        ensures
            r.wf(),
            r@ == empty_engine(default_limits()),
    {
        Self::new()
    }
}

impl<C: Clock> Engine<C> {
    /// The engine's invariant holds (`engine_inv`).
    pub open spec fn wf(&self) -> bool {
        engine_inv(self@)
    }

    pub fn with_clock(clock: C) -> (r: Self)
        ensures
            r.wf(),
            r@ == empty_engine(default_limits()),
    {
        Self::with_clock_and_limits(clock, EngineLimits::default())
    }

    pub fn with_clock_and_limits(clock: C, limits: EngineLimits) -> (r: Self)
        ensures
            r.wf(),
            r@ == empty_engine(limits),
    {
        let r = Engine {
            clock,
            entries: Vec::new(),
            leases: Vec::new(),
            limits,
            memory_used_bytes: 0,
            cost_score_total: 0,
            next_access: 0,
            stats: EngineStats::default(),
        };
        assert(r@.entries =~= Seq::<EntryModel>::empty());
        assert(r@.leases =~= Seq::<LeaseModel>::empty());
        r
    }

    fn find_entry(&self, ns: &str, key: &[u8]) -> (r: Option<usize>)
        ensures
            match r {
                Some(i) => i == entry_index(self@.entries, ns@, key@) && i < self@.entries.len(),
                None => entry_index(self@.entries, ns@, key@) == -1,
            },
    {
        let ghost es = self@.entries;
        let ghost p = is_entry(ns@, key@);
        let mut i: usize = 0;
        while i < self.entries.len()
            invariant
                es == self@.entries,
                p == is_entry(ns@, key@),
                0 <= i <= es.len(),
                forall|j: int| 0 <= j < i ==> !p(#[trigger] es[j]),
            decreases es.len() - i,
        {
            let e = &self.entries[i];
            assert(es[i as int] == e@);
            if text_eq(e.namespace.as_str(), ns) && bytes_eq(e.key.as_slice(), key) {
                proof {
                    lemma_find_first_at(es, p, i as int);
                }
                return Some(i);
            }
            i = i + 1;
        }
        proof {
            lemma_find_first_absent(es, p);
        }
        None
    }

    fn find_lease(&self, ns: &str, key: &[u8]) -> (r: Option<usize>)
        ensures
            match r {
                Some(i) => i == lease_index(self@.leases, ns@, key@) && i < self@.leases.len(),
                None => lease_index(self@.leases, ns@, key@) == -1,
            },
    {
        let ghost ls = self@.leases;
        let ghost p = is_lease(ns@, key@);
        let mut i: usize = 0;
        while i < self.leases.len()
            invariant
                ls == self@.leases,
                p == is_lease(ns@, key@),
                0 <= i <= ls.len(),
                forall|j: int| 0 <= j < i ==> !p(#[trigger] ls[j]),
            decreases ls.len() - i,
        {
            let l = &self.leases[i];
            assert(ls[i as int] == l@);
            if text_eq(l.namespace.as_str(), ns) && bytes_eq(l.key.as_slice(), key) {
                proof {
                    lemma_find_first_at(ls, p, i as int);
                }
                return Some(i);
            }
            i = i + 1;
        }
        proof {
            lemma_find_first_absent(ls, p);
        }
        None
    }

    /// Drops the lease on an id, if any.
    fn drop_lease(&mut self, ns: &str, key: &[u8])
        requires
            ids_unique(old(self)@),
        ensures
            final(self)@ == (EngineModel {
                leases: without_lease(old(self)@.leases, ns@, key@),
                ..old(self)@
            }),
            ids_unique(final(self)@),
            final(self).clock == old(self).clock,
    {
        match self.find_lease(ns, key) {
            Some(i) => {
                let ghost before = self.leases@;
                proof {
                    lemma_leases_remove_unique(self@.leases, i as int);
                }
                self.leases.remove(i);
                assert(self.leases@.map_values(|l: Lease| l@) =~= before.map_values(
                    |l: Lease| l@,
                ).remove(i as int));
            },
            None => {},
        }
    }

    /// Removes the entry at `i`, keeping any lease on its id.
    fn expire_at(&mut self, i: usize) -> (e: Entry)
        requires
            engine_wf(old(self)@),
            i < old(self)@.entries.len(),
        ensures
            final(self)@ == expire_at(old(self)@, i as int),
            e@ == old(self)@.entries[i as int],
            engine_wf(final(self)@),
            final(self).clock == old(self).clock,
    {
        let ghost before = self.entries@;
        proof {
            lemma_entries_remove_unique(self@.entries, i as int);
        }
        let e = self.entries.remove(i);
        assert(self.entries@.map_values(|e: Entry| e@) =~= before.map_values(|e: Entry| e@).remove(
            i as int,
        ));
        self.memory_used_bytes = self.memory_used_bytes.saturating_sub(e.memory_bytes);
        let cost = match e.cost {
            Some(c) => c,
            None => 0,
        };
        self.cost_score_total = self.cost_score_total.saturating_sub(cost);
        e
    }

    /// Removes the entry at `i` and its lease.
    fn remove_at(&mut self, i: usize)
        requires
            engine_wf(old(self)@),
            i < old(self)@.entries.len(),
        ensures
            final(self)@ == remove_at(old(self)@, i as int),
            engine_wf(final(self)@),
            final(self).clock == old(self).clock,
    {
        let e = self.expire_at(i);
        self.drop_lease(e.namespace.as_str(), e.key.as_slice());
    }

    /// Removes the entry with an id, and its lease; whether there was one.
    fn remove_entry(&mut self, ns: &str, key: &[u8]) -> (r: bool)
        requires
            engine_wf(old(self)@),
        ensures
            (r, final(self)@) == remove_entry(old(self)@, ns@, key@),
            engine_wf(final(self)@),
            final(self).clock == old(self).clock,
    {
        match self.find_entry(ns, key) {
            Some(i) => {
                self.remove_at(i);
                true
            },
            None => false,
        }
    }

    pub fn len(&self) -> (r: usize)
        ensures
            r == self@.entries.len(),
    {
        self.entries.len()
    }

    pub fn is_empty(&self) -> (r: bool)
        ensures
            r == (self@.entries.len() == 0),
    {
        self.len() == 0
    }

    pub fn memory_used_bytes(&self) -> (r: usize)
        ensures
            r == self@.memory_used_bytes,
    {
        self.memory_used_bytes
    }

    pub fn cost_score_total(&self) -> (r: u64)
        ensures
            r == self@.cost_score_total,
    {
        self.cost_score_total
    }

    pub fn limits(&self) -> (r: EngineLimits)
        ensures
            r == self@.limits,
    {
        self.limits
    }

    pub fn stats(&self) -> (r: EngineStats)
        ensures
            r == self@.stats,
    {
        self.stats
    }

    fn is_expired(e: &Entry, now: u64) -> (r: bool)
        ensures
            r == expired_at(e@, now),
    {
        let removable = match e.stale_until_ms {
            Some(s) => Some(s),
            None => e.expires_at_ms,
        };
        match removable {
            Some(t) => t < now,
            None => false,
        }
    }

    fn expires_before(a: &Entry, b: &Entry) -> (r: bool)
        ensures
            r == expiry_before(a@, b@),
    {
        let ta = match a.stale_until_ms {
            Some(s) => s,
            None => match a.expires_at_ms {
                Some(x) => x,
                None => 0,
            },
        };
        let tb = match b.stale_until_ms {
            Some(s) => s,
            None => match b.expires_at_ms {
                Some(x) => x,
                None => 0,
            },
        };
        if ta < tb {
            return true;
        }
        if ta != tb {
            return false;
        }
        if bytes_lt(a.namespace.as_str().as_bytes(), b.namespace.as_str().as_bytes()) {
            return true;
        }
        text_eq(a.namespace.as_str(), b.namespace.as_str()) && bytes_lt(
            a.key.as_slice(),
            b.key.as_slice(),
        )
    }

    /// The first expired entry in reclaim order.
    fn first_expired_index(&self, now: u64) -> (r: Option<usize>)
        ensures
            match r {
                Some(i) => i == first_expired(self@.entries, now, self@.entries.len() as int)
                    && i < self@.entries.len(),
                None => first_expired(self@.entries, now, self@.entries.len() as int) == -1,
            },
    {
        let ghost es = self@.entries;
        let mut best: Option<usize> = None;
        let mut i: usize = 0;
        while i < self.entries.len()
            invariant
                es == self@.entries,
                0 <= i <= es.len(),
                match best {
                    Some(b) => b == first_expired(es, now, i as int) && b < i,
                    None => first_expired(es, now, i as int) == -1,
                },
            decreases es.len() - i,
        {
            assert(es[i as int] == self.entries@[i as int]@);
            if Self::is_expired(&self.entries[i], now) {
                match best {
                    None => {
                        best = Some(i);
                    },
                    Some(b) => {
                        assert(es[b as int] == self.entries@[b as int]@);
                        if Self::expires_before(&self.entries[i], &self.entries[b]) {
                            best = Some(i);
                        }
                    },
                }
            }
            i = i + 1;
        }
        best
    }

    /// Reclaims up to `max_entries` expired entries at `now`.
    fn remove_expired(&mut self, max_entries: usize, now: u64) -> (r: usize)
        requires
            engine_wf(old(self)@),
        ensures
            engine_wf(final(self)@),
            (r as nat, final(self)@) == reclaim(old(self)@, now, max_entries as nat),
            final(self).clock == old(self).clock,
    {
        let mut removed: usize = 0;
        while removed < max_entries
            invariant
                engine_wf(self@),
                self.clock == old(self).clock,
                removed <= max_entries,
                reclaim(old(self)@, now, max_entries as nat).0 == removed + reclaim(
                    self@,
                    now,
                    (max_entries - removed) as nat,
                ).0,
                reclaim(old(self)@, now, max_entries as nat).1 == reclaim(
                    self@,
                    now,
                    (max_entries - removed) as nat,
                ).1,
            ensures
                reclaim(self@, now, (max_entries - removed) as nat) == (0nat, self@),
            decreases self@.entries.len(),
        {
            match self.first_expired_index(now) {
                None => {
                    break;
                },
                Some(i) => {
                    self.expire_at(i);
                    self.stats.expirations = self.stats.expirations.saturating_add(1);
                    removed = removed + 1;
                },
            }
        }
        removed
    }

    /// The least recently accessed of the sampled entries.
    fn least_recent_index(&self) -> (r: usize)
        requires
            self@.entries.len() > 0,
        ensures
            r == least_recent(self@.entries, lru_sample(self@)),
            r < self@.entries.len(),
    {
        let ghost es = self@.entries;
        let sample = if self.entries.len() < LRU_SAMPLE_SIZE {
            self.entries.len()
        } else {
            LRU_SAMPLE_SIZE
        };
        let mut best: usize = 0;
        let mut i: usize = 1;
        while i < sample
            invariant
                es == self@.entries,
                sample == lru_sample(self@),
                1 <= i <= sample,
                sample <= es.len(),
                best == least_recent(es, i as int),
                best < i,
            decreases sample - i,
        {
            assert(es[i as int] == self.entries@[i as int]@);
            assert(es[best as int] == self.entries@[best as int]@);
            if self.entries[i].last_access < self.entries[best].last_access {
                best = i;
            }
            i = i + 1;
        }
        best
    }

    /// Evicts sampled least recently used entries until `incoming` bytes
    /// fit or no entry remains.
    fn evict_until_fits(&mut self, incoming: usize) -> (r: usize)
        requires
            engine_wf(old(self)@),
        ensures
            engine_wf(final(self)@),
            (r as nat, final(self)@) == evict(old(self)@, incoming, old(self)@.entries.len()),
            final(self).clock == old(self).clock,
    {
        let mut evicted: usize = 0;
        let n0 = self.entries.len();
        while self.memory_used_bytes.saturating_add(incoming) > self.limits.max_memory_bytes
            invariant
                n0 == old(self)@.entries.len(),
                engine_wf(self@),
                self.clock == old(self).clock,
                evicted + self@.entries.len() == old(self)@.entries.len(),
                evict(old(self)@, incoming, old(self)@.entries.len()).0 == evicted + evict(
                    self@,
                    incoming,
                    self@.entries.len(),
                ).0,
                evict(old(self)@, incoming, old(self)@.entries.len()).1 == evict(
                    self@,
                    incoming,
                    self@.entries.len(),
                ).1,
            ensures
                evict(self@, incoming, self@.entries.len()) == (0nat, self@),
            decreases self@.entries.len(),
        {
            if self.entries.len() == 0 {
                break;
            }
            let i = self.least_recent_index();
            self.remove_at(i);
            evicted = evicted + 1;
            self.stats.evictions = self.stats.evictions.saturating_add(1);
        }
        evicted
    }

    fn state_of(e: &Entry, now: u64) -> (r: EntryState)
        ensures
            r == state_at(e@, now),
    {
        match e.expires_at_ms {
            None => EntryState::Fresh,
            Some(x) => if now <= x {
                EntryState::Fresh
            } else {
                match e.stale_until_ms {
                    Some(s) => if now <= s {
                        EntryState::Stale
                    } else {
                        EntryState::Expired
                    },
                    None => EntryState::Expired,
                }
            },
        }
    }

    /// Records an access to the entry at `i`.
    fn touch(&mut self, i: usize)
        requires
            engine_wf(old(self)@),
            i < old(self)@.entries.len(),
        ensures
            final(self)@ == touch(old(self)@, i as int),
            engine_wf(final(self)@),
            final(self).clock == old(self).clock,
            final(self).entries@.len() == old(self).entries@.len(),
    {
        let ghost before = self@;
        let mut e = self.entries.remove(i);
        e.last_access = self.next_access;
        self.next_access = self.next_access.saturating_add(1);
        self.entries.insert(i, e);
        assert(self@.entries =~= before.entries.update(
            i as int,
            EntryModel { last_access: before.next_access, ..before.entries[i as int] },
        ));
        assert(self@ =~= touch(before, i as int));
    }

    /// Serves a read of an id at `now`: `Some((i, stale))` when the entry
    /// at `i` is served, fresh or stale.
    fn lookup(&mut self, ns: &str, key: &[u8], now: u64, update_access: bool) -> (r: Option<
        (usize, bool),
    >)
        requires
            engine_wf(old(self)@),
        ensures
            engine_wf(final(self)@),
            final(self).clock == old(self).clock,
            final(self)@ == get_at(old(self)@, ns@, key@, now, update_access).1,
            match r {
                None => get_at(old(self)@, ns@, key@, now, update_access).0 is Miss,
                Some((i, stale)) => i < final(self)@.entries.len() && get_at(
                    old(self)@,
                    ns@,
                    key@,
                    now,
                    update_access,
                ).0 == if stale {
                    GetModel::Stale(final(self)@.entries[i as int].value)
                } else {
                    GetModel::Hit(final(self)@.entries[i as int].value)
                },
            },
    {
        let i = match self.find_entry(ns, key) {
            None => {
                return None;
            },
            Some(i) => i,
        };
        assert(self@.entries[i as int] == self.entries@[i as int]@);
        let state = Self::state_of(&self.entries[i], now);
        match state {
            EntryState::Fresh => {
                if update_access {
                    self.touch(i);
                }
                Some((i, false))
            },
            EntryState::Stale => {
                if update_access {
                    self.touch(i);
                }
                Some((i, true))
            },
            _ => {
                self.expire_at(i);
                None
            },
        }
    }

    /// A read at `now`, counted as an access.
    pub fn get_at_time(&mut self, namespace: &str, key: &[u8], now_ms: u64) -> (r: GetOutcome)
        requires
            old(self).wf(),
        ensures
            final(self).wf(),
            (r@, final(self)@) == get_at(old(self)@, namespace@, key@, now_ms, true),
    {
        proof {
            crate::accounting::lemma_memory_kept_others(old(self)@, namespace@, key@, namespace@, now_ms, 0, true, 0);
        }
        match self.lookup(namespace, key, now_ms, true) {
            None => GetOutcome::Miss,
            Some((i, stale)) => {
                assert(self@.entries[i as int] == self.entries@[i as int]@);
                let value = copy_bytes(self.entries[i].value.as_slice());
                if stale {
                    GetOutcome::Stale(value)
                } else {
                    GetOutcome::Hit(value)
                }
            },
        }
    }

    /// A read now, counted as an access: what `get_at_time` gives at the
    /// time the clock reads.
    pub fn get(&mut self, namespace: &str, key: &[u8]) -> (r: GetOutcome)
        requires
            old(self).wf(),
        ensures
            final(self).wf(),
            exists|now: u64| (r@, final(self)@) == #[trigger] get_at(old(self)@, namespace@, key@, now, true),
    {
        let now = self.clock.now_ms();
        self.get_at_time(namespace, key, now)
    }

    fn get_ref_inner<R, F: FnOnce(GetOutcomeRef<'_>) -> R>(
        &mut self,
        namespace: &str,
        key: &[u8],
        update_access: bool,
        map: F,
    ) -> (r: R)
        requires
            old(self).wf(),
            forall|o: GetOutcomeRef| #[trigger] map.requires((o,)),
        ensures
            final(self).wf(),
            exists|now: u64, o: GetOutcomeRef|
                final(self)@ == #[trigger] get_at(old(self)@, namespace@, key@, now, update_access).1
                    && o@ == get_at(old(self)@, namespace@, key@, now, update_access).0
                    && #[trigger] map.ensures((o,), r),
    {
        let now = self.clock.now_ms();
        proof {
            crate::accounting::lemma_memory_kept_others(old(self)@, namespace@, key@, namespace@, now, 0, update_access, 0);
        }
        match self.lookup(namespace, key, now, update_access) {
            None => {
                let o = GetOutcomeRef::Miss;
                let r = map(o);
                assert(map.ensures((o,), r));
                r
            },
            Some((i, stale)) => {
                assert(self@.entries[i as int] == self.entries@[i as int]@);
                let value = self.entries[i].value.as_slice();
                let o = if stale {
                    GetOutcomeRef::Stale(value)
                } else {
                    GetOutcomeRef::Hit(value)
                };
                let r = map(o);
                assert(map.ensures((o,), r));
                r
            },
        }
    }

    /// A read now, counted as an access, whose outcome borrows the stored
    /// value and is handed to `map`.
    pub fn get_ref<R, F: FnOnce(GetOutcomeRef<'_>) -> R>(
        &mut self,
        namespace: &str,
        key: &[u8],
        map: F,
    ) -> (r: R)
        requires
            old(self).wf(),
            forall|o: GetOutcomeRef| #[trigger] map.requires((o,)),
        ensures
            final(self).wf(),
            exists|now: u64, o: GetOutcomeRef|
                final(self)@ == #[trigger] get_at(old(self)@, namespace@, key@, now, true).1 && o@
                    == get_at(old(self)@, namespace@, key@, now, true).0 && #[trigger] map.ensures(
                    (o,),
                    r,
                ),
    {
        self.get_ref_inner(namespace, key, true, map)
    }

    /// A read now that is not counted as an access, whose outcome borrows the
    /// stored value and is handed to `map`.
    pub fn get_ref_without_access_update<R, F: FnOnce(GetOutcomeRef<'_>) -> R>(
        &mut self,
        namespace: &str,
        key: &[u8],
        map: F,
    ) -> (r: R)
        requires
            old(self).wf(),
            forall|o: GetOutcomeRef| #[trigger] map.requires((o,)),
        ensures
            final(self).wf(),
            exists|now: u64, o: GetOutcomeRef|
                final(self)@ == #[trigger] get_at(old(self)@, namespace@, key@, now, false).1 && o@
                    == get_at(old(self)@, namespace@, key@, now, false).0 && #[trigger] map.ensures(
                    (o,),
                    r,
                ),
    {
        self.get_ref_inner(namespace, key, false, map)
    }

    fn has_tag_exec(e: &Entry, namespace: &str, tag: &str) -> (r: bool)
        ensures
            r == has_tag(namespace@, tag@)(e@),
    {
        if !text_eq(e.namespace.as_str(), namespace) {
            return false;
        }
        let ghost ts = e.tags@.map_values(|t: String| t@);
        let mut i: usize = 0;
        while i < e.tags.len()
            invariant
                ts == e.tags@.map_values(|t: String| t@),
                e@.namespace == namespace@,
                0 <= i <= e.tags@.len(),
                forall|j: int| 0 <= j < i ==> ts[j] != tag@,
            decreases e.tags@.len() - i,
        {
            if text_eq(e.tags[i].as_str(), tag) {
                assert(ts[i as int] == tag@);
                assert(ts.contains(tag@));
                assert(e@.tags == ts);
                assert(e@.namespace == namespace@);
                assert(e@.tags.contains(tag@));
                assert(has_tag(namespace@, tag@)(e@));
                return true;
            }
            i = i + 1;
        }
        assert(!ts.contains(tag@));
        assert(e@.tags == ts);
        false
    }

    /// Removes every entry of the namespace that carries the tag, with its
    /// lease; how many.
    pub fn invalidate_tag(&mut self, namespace: &str, tag: &str) -> (r: usize)
        requires
            old(self).wf(),
        ensures
            final(self).wf(),
            (r as nat, final(self)@) == invalidate(
                old(self)@,
                namespace@,
                tag@,
                old(self)@.entries.len(),
            ),
    {
        proof {
            crate::accounting::lemma_memory_kept_others(old(self)@, namespace@, Seq::empty(), tag@, 0, 0, true, 0);
        }
        let ghost p = has_tag(namespace@, tag@);
        let n0 = self.entries.len();
        let mut removed: usize = 0;
        let mut i: usize = 0;
        while i < self.entries.len()
            invariant
                engine_wf(self@),
                p == has_tag(namespace@, tag@),
                n0 == old(self)@.entries.len(),
                removed + self@.entries.len() == n0,
                0 <= i <= self@.entries.len(),
                forall|j: int| 0 <= j < i ==> !p(#[trigger] self@.entries[j]),
                invalidate(old(self)@, namespace@, tag@, n0 as nat).0 == removed + invalidate(
                    self@,
                    namespace@,
                    tag@,
                    self@.entries.len(),
                ).0,
                invalidate(old(self)@, namespace@, tag@, n0 as nat).1 == invalidate(
                    self@,
                    namespace@,
                    tag@,
                    self@.entries.len(),
                ).1,
            decreases self@.entries.len() - i + self@.entries.len(),
        {
            assert(self@.entries[i as int] == self.entries@[i as int]@);
            if Self::has_tag_exec(&self.entries[i], namespace, tag) {
                proof {
                    lemma_find_first_at(self@.entries, p, i as int);
                }
                let ghost before = self@;
                self.remove_at(i);
                removed = removed + 1;
                assert(forall|j: int| 0 <= j < i ==> self@.entries[j] == before.entries[j]);
            } else {
                i = i + 1;
            }
        }
        proof {
            lemma_find_first_absent(self@.entries, p);
        }
        removed
    }

    /// A write at `now`.
    pub fn put_at_time(&mut self, command: PutCommand, now_ms: u64) -> (r: Result<PutOutcome, PutError>)
        requires
            old(self).wf(),
        ensures
            final(self).wf(),
            (r, final(self)@) == put_at(old(self)@, command@, now_ms),
    {
        proof {
            crate::accounting::lemma_memory_kept_put(old(self)@, command@, now_ms);
        }
        let ghost c = command@;
        if command.value.len() > self.limits.max_value_bytes {
            return Err(
                PutError::ValueTooLarge {
                    value_bytes: command.value.len(),
                    max_value_bytes: self.limits.max_value_bytes,
                },
            );
        }
        let mem = estimate_entry_memory(
            command.namespace.as_str(),
            command.key.as_slice(),
            command.value.as_slice(),
            &command.tags,
        );
        assert(mem == entry_memory(c));
        if mem > self.limits.max_memory_bytes {
            return Err(
                PutError::ValueTooLargeForMemory {
                    entry_bytes: mem,
                    max_memory_bytes: self.limits.max_memory_bytes,
                },
            );
        }
        let ghost m0 = self@;
        self.remove_entry(command.namespace.as_str(), command.key.as_slice());
        proof {
            lemma_remove_entry_absent(m0, c.namespace, c.key);
        }
        let ghost m1 = self@;
        if self.memory_used_bytes.saturating_add(mem) > self.limits.max_memory_bytes {
            self.remove_expired(usize::MAX, now_ms);
            proof {
                lemma_absent_reclaim(m1, now_ms, usize::MAX as nat, c.namespace, c.key);
            }
        }
        let ghost m2 = self@;
        let evicted = self.evict_until_fits(mem);
        proof {
            lemma_absent_evict(m2, mem, m2.entries.len(), c.namespace, c.key);
        }
        if self.memory_used_bytes.saturating_add(mem) > self.limits.max_memory_bytes {
            return Err(
                PutError::InsufficientMemory {
                    required_bytes: mem,
                    memory_used_bytes: self.memory_used_bytes,
                    max_memory_bytes: self.limits.max_memory_bytes,
                },
            );
        }
        let ghost m3 = self@;
        let expires_at_ms = match command.ttl {
            Some(t) => Some(now_ms.saturating_add(t.milliseconds)),
            None => None,
        };
        let stale_until_ms = match (expires_at_ms, command.stale_ttl) {
            (Some(x), Some(st)) => Some(x.saturating_add(st.milliseconds)),
            _ => None,
        };
        let last_access = self.next_access;
        self.next_access = self.next_access.saturating_add(1);
        let cost = match command.cost {
            Some(v) => v,
            None => 0,
        };
        let entry = Entry {
            namespace: command.namespace,
            key: command.key,
            value: command.value,
            expires_at_ms,
            stale_until_ms,
            tags: command.tags,
            cost: command.cost,
            memory_bytes: mem,
            last_access,
        };
        proof {
            lemma_push_unique(m3.entries, entry@);
        }
        let ghost before = self.entries@;
        self.entries.push(entry);
        assert(self.entries@.map_values(|e: Entry| e@) =~= before.map_values(|e: Entry| e@).push(
            entry@,
        ));
        self.memory_used_bytes = self.memory_used_bytes.saturating_add(mem);
        self.cost_score_total = self.cost_score_total.saturating_add(cost);
        Ok(PutOutcome { evicted })
    }

    /// A write now: what `put_at_time` does at the time the clock reads.
    pub fn put(&mut self, command: PutCommand) -> (r: Result<PutOutcome, PutError>)
        requires
            old(self).wf(),
        ensures
            final(self).wf(),
            exists|now: u64| (r, final(self)@) == #[trigger] put_at(old(self)@, command@, now),
    {
        let now = self.clock.now_ms();
        self.put_at_time(command, now)
    }

    /// Grants a lease on an id at `now`; the new token.
    fn create_lease(&mut self, ns: &str, key: &[u8], ttl: u64, now: u64) -> (token: String)
        requires
            engine_wf(old(self)@),
        ensures
            (token@, final(self)@) == create_lease(old(self)@, ns@, key@, ttl, now),
            engine_wf(final(self)@),
            final(self).clock == old(self).clock,
    {
        proof {
            reveal_strlit("lease-");
        }
        let mut token = String::from_str("lease-");
        append_decimal(&mut token, self.next_access);
        assert(token@ == lease_token(self.next_access));
        self.next_access = self.next_access.saturating_add(1);
        let lease = Lease {
            namespace: String::from_str(ns),
            key: copy_bytes(key),
            token: token.clone(),
            expires_at_ms: now.saturating_add(ttl),
        };
        let ghost before = self.leases@;
        match self.find_lease(ns, key) {
            Some(i) => {
                proof {
                    lemma_find_first(self@.leases, is_lease(ns@, key@), self@.leases.len() as int);
                    lemma_leases_update_unique(self@.leases, i as int, lease@);
                }
                self.leases.set(i, lease);
                assert(self.leases@.map_values(|l: Lease| l@) =~= before.map_values(
                    |l: Lease| l@,
                ).update(i as int, lease@));
            },
            None => {
                proof {
                    lemma_leases_push_unique(self@.leases, lease@);
                }
                self.leases.push(lease);
                assert(self.leases@.map_values(|l: Lease| l@) =~= before.map_values(
                    |l: Lease| l@,
                ).push(lease@));
            },
        }
        token
    }

    /// Whether a lease on an id is running at `now`.
    fn lease_running(&self, ns: &str, key: &[u8], now: u64) -> (r: bool)
        ensures
            r == (active_lease(self@, ns@, key@, now) is Some),
    {
        match self.find_lease(ns, key) {
            Some(i) => {
                assert(self@.leases[i as int] == self.leases@[i as int]@);
                now <= self.leases[i].expires_at_ms
            },
            None => false,
        }
    }

    /// A lease request at `now`.
    pub fn start_lease_at_time(&mut self, namespace: &str, key: &[u8], lease_ttl_ms: u64, now_ms: u64) -> (r: StartLeaseOutcome)
        requires
            old(self).wf(),
        ensures
            final(self).wf(),
            (r@, final(self)@) == start_lease_at(old(self)@, namespace@, key@, lease_ttl_ms, now_ms),
    {
        proof {
            crate::accounting::lemma_memory_kept_others(old(self)@, namespace@, key@, namespace@, now_ms, lease_ttl_ms, true, 0);
        }
        let held = self.lease_running(namespace, key, now_ms);
        match self.find_entry(namespace, key) {
            None => {
                if held {
                    StartLeaseOutcome::LeaseDenied
                } else {
                    let token = self.create_lease(namespace, key, lease_ttl_ms, now_ms);
                    StartLeaseOutcome::LeaseGranted { token, stale_value: None }
                }
            },
            Some(i) => {
                assert(self@.entries[i as int] == self.entries@[i as int]@);
                let state = Self::state_of(&self.entries[i], now_ms);
                match state {
                    EntryState::Fresh => {
                        self.touch(i);
                        assert(self@.entries[i as int] == self.entries@[i as int]@);
                        let value = copy_bytes(self.entries[i].value.as_slice());
                        StartLeaseOutcome::Hit(value)
                    },
                    EntryState::Stale => {
                        self.touch(i);
                        assert(self@.entries[i as int] == self.entries@[i as int]@);
                        let value = copy_bytes(self.entries[i].value.as_slice());
                        if held {
                            StartLeaseOutcome::Stale { value }
                        } else {
                            let token = self.create_lease(namespace, key, lease_ttl_ms, now_ms);
                            StartLeaseOutcome::LeaseGranted { token, stale_value: Some(value) }
                        }
                    },
                    _ => {
                        if held {
                            StartLeaseOutcome::LeaseDenied
                        } else {
                            self.remove_at(i);
                            let token = self.create_lease(namespace, key, lease_ttl_ms, now_ms);
                            StartLeaseOutcome::LeaseGranted { token, stale_value: None }
                        }
                    },
                }
            },
        }
    }

    /// A lease request now: what `start_lease_at_time` does at the time the
    /// clock reads.
    pub fn start_lease(&mut self, namespace: &str, key: &[u8], lease_ttl_ms: u64) -> (r: StartLeaseOutcome)
        requires
            old(self).wf(),
        ensures
            final(self).wf(),
            exists|now: u64| (r@, final(self)@) == #[trigger] start_lease_at(old(self)@, namespace@, key@, lease_ttl_ms, now),
    {
        let now = self.clock.now_ms();
        self.start_lease_at_time(namespace, key, lease_ttl_ms, now)
    }

    /// Completes a lease at `now`.
    pub fn complete_lease_at_time(&mut self, command: CompleteLeaseCommand, now_ms: u64) -> (r: Result<PutOutcome, CompleteLeaseError>)
        requires
            old(self).wf(),
        ensures
            final(self).wf(),
            (r, final(self)@) == complete_lease_at(old(self)@, command@, now_ms),
    {
        let ghost c = command@;
        match self.find_lease(command.namespace.as_str(), command.key.as_slice()) {
            None => {
                return Err(CompleteLeaseError::InvalidLeaseToken);
            },
            Some(i) => {
                assert(self@.leases[i as int] == self.leases@[i as int]@);
                if now_ms > self.leases[i].expires_at_ms {
                    self.drop_lease(command.namespace.as_str(), command.key.as_slice());
                    return Err(CompleteLeaseError::InvalidLeaseToken);
                }
                if !text_eq(self.leases[i].token.as_str(), command.lease_token.as_str()) {
                    return Err(CompleteLeaseError::InvalidLeaseToken);
                }
            },
        }
        self.drop_lease(command.namespace.as_str(), command.key.as_slice());
        let put = PutCommand {
            namespace: command.namespace,
            key: command.key,
            value: command.value,
            ttl: command.ttl,
            stale_ttl: command.stale_ttl,
            tags: command.tags,
            cost: command.cost,
        };
        assert(put@ == c.put);
        match self.put_at_time(put, now_ms) {
            Ok(o) => Ok(o),
            Err(e) => Err(CompleteLeaseError::Put(e)),
        }
    }

    /// Completes a lease now: what `complete_lease_at_time` does at the time
    /// the clock reads.
    pub fn complete_lease(&mut self, command: CompleteLeaseCommand) -> (r: Result<PutOutcome, CompleteLeaseError>)
        requires
            old(self).wf(),
        ensures
            final(self).wf(),
            exists|now: u64| (r, final(self)@) == #[trigger] complete_lease_at(old(self)@, command@, now),
    {
        let now = self.clock.now_ms();
        self.complete_lease_at_time(command, now)
    }

    /// Reads several keys of a namespace, each now and counted as an access.
    pub fn batch_get(&mut self, namespace: &str, keys: &[Vec<u8>]) -> (r: Vec<GetOutcome>)
        requires
            old(self).wf(),
        ensures
            final(self).wf(),
            exists|times: Seq<u64>|
                times.len() == keys@.len() && (outcomes_view(r@), final(self)@) == #[trigger] batch_get_at(
                    old(self)@,
                    namespace@,
                    keys_view(keys@),
                    times,
                ),
    {
        let ghost kv = keys_view(keys@);
        let ghost mut times: Seq<u64> = Seq::empty();
        let mut out: Vec<GetOutcome> = Vec::new();
        let mut i: usize = 0;
        assert(kv.take(0) =~= Seq::<Seq<u8>>::empty());
        assert(outcomes_view(out@) =~= Seq::<GetModel>::empty());
        while i < keys.len()
            invariant
                self.wf(),
                kv == keys_view(keys@),
                0 <= i <= keys@.len(),
                times.len() == i,
                (outcomes_view(out@), self@) == batch_get_at(old(self)@, namespace@, kv.take(i as int), times),
            decreases keys@.len() - i,
        {
            let now = self.clock.now_ms();
            let g = self.get_at_time(namespace, keys[i].as_slice(), now);
            let ghost prev = out@;
            out.push(g);
            proof {
                let t1 = times.push(now);
                assert(kv.take(i as int + 1).drop_last() =~= kv.take(i as int));
                assert(kv.take(i as int + 1).last() == keys@[i as int]@);
                assert(t1.drop_last() =~= times);
                assert(outcomes_view(out@) =~= outcomes_view(prev).push(g@));
                times = t1;
            }
            i = i + 1;
        }
        assert(kv.take(keys@.len() as int) =~= kv);
        out
    }

    /// The tags of the entry with an id.
    pub(crate) fn tag_ids_for_entry(&self, namespace: &str, key: &[u8]) -> (r: Vec<String>)
        ensures
            strings_view(r@) == entry_tags(self@, namespace@, key@),
    {
        match self.find_entry(namespace, key) {
            Some(i) => {
                assert(self@.entries[i as int] == self.entries@[i as int]@);
                copy_strings(&self.entries[i].tags)
            },
            None => {
                let r: Vec<String> = Vec::new();
                assert(strings_view(r@) =~= Seq::<Seq<char>>::empty());
                r
            },
        }
    }

    /// Whether some entry of the namespace carries the tag.
    pub(crate) fn has_tag_id(&self, namespace: &str, tag: &str) -> (r: bool)
        ensures
            r == shard_has_tag(self@, namespace@, tag@),
    {
        let ghost p = has_tag(namespace@, tag@);
        let ghost es = self@.entries;
        let mut i: usize = 0;
        while i < self.entries.len()
            invariant
                es == self@.entries,
                p == has_tag(namespace@, tag@),
                0 <= i <= es.len(),
                forall|j: int| 0 <= j < i ==> !p(#[trigger] es[j]),
            decreases es.len() - i,
        {
            assert(es[i as int] == self.entries@[i as int]@);
            if Self::has_tag_exec(&self.entries[i], namespace, tag) {
                proof {
                    lemma_find_first_at(es, p, i as int);
                }
                return true;
            }
            i = i + 1;
        }
        proof {
            lemma_find_first_absent(es, p);
        }
        false
    }

    /// Deletes an id: its lease and its entry; whether there was an entry.
    pub fn delete(&mut self, namespace: &str, key: &[u8]) -> (r: bool)
        requires
            old(self).wf(),
        ensures
            final(self).wf(),
            (r, final(self)@) == delete(old(self)@, namespace@, key@),
    {
        proof {
            crate::accounting::lemma_memory_kept_others(old(self)@, namespace@, key@, namespace@, 0, 0, true, 0);
        }
        self.drop_lease(namespace, key);
        self.remove_entry(namespace, key)
    }

    /// Reclaims up to `max_entries` expired entries now; how many.
    pub fn reclaim_expired_budget(&mut self, max_entries: usize) -> (r: usize)
        requires
            old(self).wf(),
        ensures
            final(self).wf(),
            exists|now: u64| (r as nat, final(self)@) == #[trigger] reclaim(old(self)@, now, max_entries as nat),
            r <= max_entries,
    {
        let now = self.clock.now_ms();
        let r = self.remove_expired(max_entries, now);
        proof {
            crate::accounting::lemma_memory_kept_others(old(self)@, Seq::empty(), Seq::empty(), Seq::empty(), now, 0, true, max_entries as nat);
        }
        proof {
            lemma_reclaim_le_budget(old(self)@, now, max_entries as nat);
        }
        r
    }

    /// Reclaims every expired entry now; how many.
    pub fn reclaim_expired(&mut self) -> (r: usize)
        requires
            old(self).wf(),
        ensures
            final(self).wf(),
            exists|now: u64| (r as nat, final(self)@) == #[trigger] reclaim(old(self)@, now, usize::MAX as nat),
    {
        self.reclaim_expired_budget(usize::MAX)
    }
}

} // verus!
