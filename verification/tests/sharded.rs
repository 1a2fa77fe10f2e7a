use std::cell::Cell;
use std::rc::Rc;

use cachebox::api::Ttl;
use cachebox::engine::{Clock, EngineLimits, GetOutcome, PutCommand, PutOutcome, StartLeaseOutcome};
use cachebox::sharded::{choose_shard_count, ShardedEngine};

#[derive(Clone, Debug)]
struct ManualClock {
    now_ms: Rc<Cell<u64>>,
}

impl ManualClock {
    fn new(now_ms: u64) -> Self {
        Self {
            now_ms: Rc::new(Cell::new(now_ms)),
        }
    }

    fn advance(&self, milliseconds: u64) {
        self.now_ms.set(self.now_ms.get().saturating_add(milliseconds));
    }
}

impl Clock for ManualClock {
    fn now_ms(&self) -> u64 {
        self.now_ms.get()
    }
}

fn sharded_engine(shard_count: usize) -> (ShardedEngine<ManualClock>, ManualClock) {
    let clock = ManualClock::new(1_000);
    (
        ShardedEngine::with_clock_and_limits(clock.clone(), EngineLimits::default(), shard_count),
        clock,
    )
}

fn put(namespace: &str, key: &[u8], value: &[u8]) -> PutCommand {
    PutCommand {
        namespace: namespace.to_string(),
        key: key.to_vec(),
        value: value.to_vec(),
        ttl: None,
        stale_ttl: None,
        tags: Vec::new(),
        cost: None,
    }
}

#[test]
fn sharded_engine_invalidates_tag_across_shards() {
    let (mut engine, _) = sharded_engine(8);
    for index in 0..64 {
        let mut command = put("default", format!("key-{index}").as_bytes(), b"value");
        command.tags = vec!["group".to_string()];
        engine.put(command).expect("put should fit");
    }

    assert_eq!(engine.len(), 64);
    assert!(engine.routed_shard_count_for_tag("default", "group") > 1);
    assert!(engine.routed_shard_count_for_tag("default", "group") <= 8);
    assert_eq!(engine.invalidate_tag("default", "group"), 64);
    assert_eq!(engine.routed_shard_count_for_tag("default", "group"), 0);
    assert_eq!(engine.len(), 0);
    for index in 0..64 {
        assert_eq!(
            engine.get("default", format!("key-{index}").as_bytes()),
            GetOutcome::Miss
        );
    }
}

#[test]
fn sharded_tag_routing_cleans_replaced_tags() {
    let (mut engine, _) = sharded_engine(8);
    let mut first = put("default", b"k", b"old");
    first.tags = vec!["old".to_string()];
    engine.put(first).expect("put should fit");
    assert_eq!(engine.routed_shard_count_for_tag("default", "old"), 1);

    let mut second = put("default", b"k", b"new");
    second.tags = vec!["new".to_string()];
    engine.put(second).expect("put should fit");

    assert_eq!(engine.routed_shard_count_for_tag("default", "old"), 0);
    assert_eq!(engine.invalidate_tag("default", "old"), 0);
    assert_eq!(engine.get("default", b"k"), GetOutcome::Hit(b"new".to_vec()));
    assert_eq!(engine.routed_shard_count_for_tag("default", "new"), 1);
    assert_eq!(engine.invalidate_tag("default", "new"), 1);
    assert_eq!(engine.get("default", b"k"), GetOutcome::Miss);
}

#[test]
fn sharded_tag_routing_cleans_deleted_entries() {
    let (mut engine, _) = sharded_engine(8);
    let mut command = put("default", b"k", b"value");
    command.tags = vec!["group".to_string()];
    engine.put(command).expect("put should fit");
    assert_eq!(engine.routed_shard_count_for_tag("default", "group"), 1);

    assert!(engine.delete("default", b"k"));

    assert_eq!(engine.routed_shard_count_for_tag("default", "group"), 0);
    assert_eq!(engine.invalidate_tag("default", "group"), 0);
}

#[test]
fn sharded_tag_routing_preserves_namespace_isolation() {
    let (mut engine, _) = sharded_engine(8);
    let mut first = put("default", b"a", b"1");
    first.tags = vec!["org:9".to_string()];
    engine.put(first).expect("put should fit");

    let mut second = put("other", b"a", b"2");
    second.tags = vec!["org:9".to_string()];
    engine.put(second).expect("put should fit");

    assert_eq!(engine.invalidate_tag("default", "org:9"), 1);
    assert_eq!(engine.get("default", b"a"), GetOutcome::Miss);
    assert_eq!(engine.get("other", b"a"), GetOutcome::Hit(b"2".to_vec()));
    assert_eq!(engine.invalidate_tag("other", "org:9"), 1);
}

#[test]
fn sharded_engine_reclaim_expired_budget_is_global() {
    let (mut engine, clock) = sharded_engine(8);
    for index in 0..16 {
        let mut command = put("default", format!("key-{index}").as_bytes(), b"value");
        command.ttl = Some(Ttl { milliseconds: 1 });
        engine.put(command).expect("put should fit");
    }

    clock.advance(2);

    assert_eq!(engine.reclaim_expired_budget(5), 5);
    assert_eq!(engine.stats().expirations, 5);
    assert_eq!(engine.len(), 11);
    assert_eq!(engine.reclaim_expired_budget(usize::MAX), 11);
    assert_eq!(engine.stats().expirations, 16);
    assert_eq!(engine.len(), 0);
}

#[test]
fn sharded_engine_aggregates_memory_and_cost_metrics() {
    let (mut engine, _) = sharded_engine(8);
    let mut first = put("default", b"a", b"value");
    first.cost = Some(10);
    engine.put(first).expect("put should fit");
    let mut second = put("default", b"b", b"value");
    second.cost = Some(7);
    engine.put(second).expect("put should fit");

    assert!(engine.memory_used_bytes() > 0);
    assert_eq!(engine.cost_score_total(), 17);
    assert_eq!(engine.limits(), EngineLimits::default());
}

#[test]
fn sharded_leases_and_batches_route_by_key() {
    let (mut engine, _) = sharded_engine(4);
    engine.put(put("default", b"a", b"1")).expect("put should fit");
    let outcomes = engine.batch_get("default", &[b"a".to_vec(), b"missing".to_vec()]);
    assert_eq!(outcomes, vec![GetOutcome::Hit(b"1".to_vec()), GetOutcome::Miss]);
    assert!(matches!(
        engine.start_lease("default", b"missing", 1_000),
        StartLeaseOutcome::LeaseGranted { stale_value: None, .. }
    ));
    assert_eq!(engine.start_lease("default", b"missing", 1_000), StartLeaseOutcome::LeaseDenied);
    assert!(!engine.is_empty());
    assert!(!engine.delete("default", b"missing"));
}

#[test]
fn each_shard_gets_its_share_of_the_memory_cap() {
    let clock = ManualClock::new(0);
    let mut engine = ShardedEngine::with_clock_and_limits(
        clock,
        EngineLimits { max_memory_bytes: 401, max_value_bytes: 1_000 },
        4,
    );
    // Each shard holds 101 bytes: an entry of 96 + 7 + 1 + 0 bytes does not fit.
    let error = engine.put(put("default", b"k", b"")).expect_err("share is too small");
    assert!(matches!(
        error,
        cachebox::engine::PutError::ValueTooLargeForMemory { entry_bytes: 104, max_memory_bytes: 101 }
    ));
}

#[test]
fn default_limits_store_a_five_mebibyte_value() {
    let mut engine = ShardedEngine::with_limits(EngineLimits::default());
    let value = vec![0u8; 5 * 1024 * 1024];
    let result = engine.put(PutCommand {
        namespace: "default".into(),
        key: b"k".to_vec(),
        value: value.clone(),
        ttl: None,
        stale_ttl: None,
        tags: vec![],
        cost: None,
    });
    assert_eq!(result, Ok(PutOutcome { evicted: 0 }));
    assert_eq!(engine.get("default", b"k"), GetOutcome::Hit(vec![0u8; 5_242_880]));
}

#[test]
fn default_limits_store_a_value_of_the_largest_size() {
    let limits = EngineLimits::default();
    let mut engine = ShardedEngine::with_limits(limits);
    let value = vec![7u8; limits.max_value_bytes];
    let result = engine.put(PutCommand {
        namespace: "default".into(),
        key: b"big".to_vec(),
        value: value.clone(),
        ttl: None,
        stale_ttl: None,
        tags: vec![],
        cost: None,
    });
    assert_eq!(result, Ok(PutOutcome { evicted: 0 }));
    assert_eq!(engine.get("default", b"big"), GetOutcome::Hit(value));
}

#[test]
fn shard_count_leaves_room_for_the_largest_value() {
    assert_eq!(choose_shard_count(EngineLimits::default()), 7);
    assert_eq!(
        choose_shard_count(EngineLimits { max_memory_bytes: 1 << 40, max_value_bytes: 1024 }),
        16
    );
    assert_eq!(
        choose_shard_count(EngineLimits { max_memory_bytes: 1024, max_value_bytes: 1024 }),
        1
    );
    assert_eq!(
        choose_shard_count(EngineLimits { max_memory_bytes: usize::MAX, max_value_bytes: usize::MAX }),
        1
    );
    assert_eq!(
        choose_shard_count(EngineLimits { max_memory_bytes: 3 * 65_546, max_value_bytes: 10 }),
        3
    );
}
