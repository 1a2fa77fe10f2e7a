use std::cell::Cell;
use std::rc::Rc;

use cachebox::api::Ttl;
use cachebox::engine::{
    Clock, CompleteLeaseCommand, CompleteLeaseError, Engine, EngineLimits, GetOutcome,
    GetOutcomeRef, PutCommand, PutError, StartLeaseOutcome,
};

#[derive(Clone, Debug)]
struct ManualClock {
    now_ms: Rc<Cell<u64>>,
}

impl ManualClock {
    fn new(now_ms: u64) -> Self {
        Self {
            now_ms: Rc::new(Cell::new(now_ms)),
        }
    }

    fn advance(&self, milliseconds: u64) {
        self.now_ms.set(self.now_ms.get().saturating_add(milliseconds));
    }
}

impl Clock for ManualClock {
    fn now_ms(&self) -> u64 {
        self.now_ms.get()
    }
}

fn engine() -> (Engine<ManualClock>, ManualClock) {
    let clock = ManualClock::new(1_000);
    (Engine::with_clock(clock.clone()), clock)
}

fn tiny_engine(max_memory_bytes: usize, max_value_bytes: usize) -> (Engine<ManualClock>, ManualClock) {
    let clock = ManualClock::new(1_000);
    (
        Engine::with_clock_and_limits(
            clock.clone(),
            EngineLimits {
                max_memory_bytes,
                max_value_bytes,
            },
        ),
        clock,
    )
}

fn put(namespace: &str, key: &[u8], value: &[u8]) -> PutCommand {
    PutCommand {
        namespace: namespace.to_string(),
        key: key.to_vec(),
        value: value.to_vec(),
        ttl: None,
        stale_ttl: None,
        tags: Vec::new(),
        cost: None,
    }
}

#[test]
fn stores_and_reads_binary_keys_and_values() {
    let (mut engine, _) = engine();
    engine
        .put(put("default", b"user\0\xff", b"value\0\xff"))
        .expect("put should fit");

    assert_eq!(
        engine.get("default", b"user\0\xff"),
        GetOutcome::Hit(b"value\0\xff".to_vec())
    );
    assert_eq!(engine.get("other", b"user\0\xff"), GetOutcome::Miss);
}

#[test]
fn get_ref_exposes_value_without_changing_owned_get_behavior() {
    let (mut engine, _) = engine();
    engine.put(put("default", b"k", b"value")).expect("put should fit");

    let observed = engine.get_ref("default", b"k", |outcome| match outcome {
        GetOutcomeRef::Hit(value) => value.to_vec(),
        other => panic!("expected hit, got {other:?}"),
    });

    assert_eq!(observed, b"value".to_vec());
    assert_eq!(engine.get("default", b"k"), GetOutcome::Hit(b"value".to_vec()));
}

#[test]
fn deletes_are_idempotent() {
    let (mut engine, _) = engine();
    engine.put(put("default", b"k", b"v")).expect("put should fit");

    assert!(engine.delete("default", b"k"));
    assert!(!engine.delete("default", b"k"));
    assert_eq!(engine.get("default", b"k"), GetOutcome::Miss);
}

#[test]
fn batch_get_handles_mixed_hits_and_misses() {
    let (mut engine, _) = engine();
    engine.put(put("default", b"a", b"1")).expect("put should fit");
    engine.put(put("default", b"c", b"3")).expect("put should fit");

    let outcomes = engine.batch_get("default", &[b"a".to_vec(), b"b".to_vec(), b"c".to_vec()]);

    assert_eq!(
        outcomes,
        vec![
            GetOutcome::Hit(b"1".to_vec()),
            GetOutcome::Miss,
            GetOutcome::Hit(b"3".to_vec())
        ]
    );
}

#[test]
fn expires_entries_lazily_after_ttl() {
    let (mut engine, clock) = engine();
    let mut command = put("default", b"k", b"v");
    command.ttl = Some(Ttl { milliseconds: 10 });
    engine.put(command).expect("put should fit");

    assert_eq!(engine.get("default", b"k"), GetOutcome::Hit(b"v".to_vec()));
    clock.advance(10);
    assert_eq!(engine.get("default", b"k"), GetOutcome::Hit(b"v".to_vec()));
    clock.advance(1);
    assert_eq!(engine.get("default", b"k"), GetOutcome::Miss);
    assert!(engine.is_empty());
}

#[test]
fn serves_stale_until_stale_ttl_expires() {
    let (mut engine, clock) = engine();
    let mut command = put("default", b"k", b"v");
    command.ttl = Some(Ttl { milliseconds: 10 });
    command.stale_ttl = Some(Ttl { milliseconds: 20 });
    engine.put(command).expect("put should fit");

    clock.advance(11);
    assert_eq!(engine.get("default", b"k"), GetOutcome::Stale(b"v".to_vec()));

    clock.advance(19);
    assert_eq!(engine.get("default", b"k"), GetOutcome::Stale(b"v".to_vec()));

    clock.advance(1);
    assert_eq!(engine.get("default", b"k"), GetOutcome::Miss);
}

#[test]
fn ttl_without_stale_expires_directly_to_miss() {
    let (mut engine, clock) = engine();
    let mut command = put("default", b"k", b"v");
    command.ttl = Some(Ttl { milliseconds: 1 });
    engine.put(command).expect("put should fit");

    clock.advance(2);
    assert_eq!(engine.get("default", b"k"), GetOutcome::Miss);
}

#[test]
fn no_expiry_entry_ignores_stale_ttl() {
    let (mut engine, clock) = engine();
    let mut command = put("default", b"k", b"v");
    command.stale_ttl = Some(Ttl { milliseconds: 1 });
    engine.put(command).expect("put should fit");

    clock.advance(10_000);
    assert_eq!(engine.get("default", b"k"), GetOutcome::Hit(b"v".to_vec()));
}

#[test]
fn replacing_key_cleans_old_tag_indexes() {
    let (mut engine, _) = engine();
    let mut first = put("default", b"k", b"old");
    first.tags = vec!["old".to_string()];
    engine.put(first).expect("put should fit");

    let mut second = put("default", b"k", b"new");
    second.tags = vec!["new".to_string()];
    engine.put(second).expect("put should fit");

    assert_eq!(engine.invalidate_tag("default", "old"), 0);
    assert_eq!(engine.get("default", b"k"), GetOutcome::Hit(b"new".to_vec()));
    assert_eq!(engine.invalidate_tag("default", "new"), 1);
    assert_eq!(engine.get("default", b"k"), GetOutcome::Miss);
}

#[test]
fn tag_invalidation_removes_only_matching_namespace_entries() {
    let (mut engine, _) = engine();
    let mut first = put("default", b"a", b"1");
    first.tags = vec!["org:9".to_string()];
    engine.put(first).expect("put should fit");

    let mut second = put("default", b"b", b"2");
    second.tags = vec!["org:9".to_string()];
    engine.put(second).expect("put should fit");

    let mut other_namespace = put("other", b"a", b"3");
    other_namespace.tags = vec!["org:9".to_string()];
    engine.put(other_namespace).expect("put should fit");

    assert_eq!(engine.invalidate_tag("default", "org:9"), 2);
    assert_eq!(engine.get("default", b"a"), GetOutcome::Miss);
    assert_eq!(engine.get("default", b"b"), GetOutcome::Miss);
    assert_eq!(engine.get("other", b"a"), GetOutcome::Hit(b"3".to_vec()));
}

#[test]
fn rejects_single_values_over_max_value_size() {
    let (mut engine, _) = tiny_engine(1_000, 3);

    let error = engine
        .put(put("default", b"k", b"four"))
        .expect_err("oversized value should fail");

    assert_eq!(
        error,
        PutError::ValueTooLarge {
            value_bytes: 4,
            max_value_bytes: 3
        }
    );
    assert_eq!(engine.get("default", b"k"), GetOutcome::Miss);
}

#[test]
fn rejects_entries_that_cannot_fit_memory_cap() {
    let (mut engine, _) = tiny_engine(10, 1_000);

    let error = engine
        .put(put("default", b"k", b"v"))
        .expect_err("entry should exceed tiny memory cap");

    assert!(matches!(
        error,
        PutError::ValueTooLargeForMemory {
            entry_bytes: _,
            max_memory_bytes: 10
        }
    ));
}

#[test]
fn evicts_least_recently_used_entries_to_stay_under_memory_cap() {
    let (mut engine, _) = tiny_engine(240, 1_000);
    engine.put(put("default", b"a", b"1111111111")).expect("a should fit");
    engine.put(put("default", b"b", b"2222222222")).expect("b should fit");
    assert_eq!(engine.get("default", b"a"), GetOutcome::Hit(b"1111111111".to_vec()));

    let outcome = engine
        .put(put("default", b"c", b"3333333333"))
        .expect("c should fit by evicting one entry");

    assert_eq!(outcome.evicted, 1);
    assert_eq!(engine.stats().evictions, 1);
    assert_eq!(engine.get("default", b"a"), GetOutcome::Hit(b"1111111111".to_vec()));
    assert_eq!(engine.get("default", b"b"), GetOutcome::Miss);
    assert_eq!(engine.get("default", b"c"), GetOutcome::Hit(b"3333333333".to_vec()));
    assert!(engine.memory_used_bytes() <= engine.limits().max_memory_bytes);
}

#[test]
fn get_ref_without_access_update_does_not_refresh_lru_state() {
    let (mut engine, _) = tiny_engine(240, 1_000);
    engine.put(put("default", b"a", b"1111111111")).expect("a should fit");
    engine.put(put("default", b"b", b"2222222222")).expect("b should fit");
    engine.get_ref_without_access_update("default", b"a", |outcome| {
        assert!(matches!(outcome, GetOutcomeRef::Hit(b"1111111111")));
    });

    let outcome = engine
        .put(put("default", b"c", b"3333333333"))
        .expect("c should fit by evicting one entry");

    assert_eq!(outcome.evicted, 1);
    assert_eq!(engine.get("default", b"a"), GetOutcome::Miss);
    assert_eq!(engine.get("default", b"b"), GetOutcome::Hit(b"2222222222".to_vec()));
}

#[test]
fn replacing_key_updates_memory_accounting() {
    let (mut engine, _) = tiny_engine(1_000, 1_000);
    engine.put(put("default", b"k", b"large-value")).expect("large value should fit");
    let after_large = engine.memory_used_bytes();

    engine.put(put("default", b"k", b"s")).expect("smaller replacement should fit");
    let after_small = engine.memory_used_bytes();

    assert!(after_small < after_large);
    assert_eq!(engine.get("default", b"k"), GetOutcome::Hit(b"s".to_vec()));
}

#[test]
fn replacing_key_cleans_old_expiry_index() {
    let (mut engine, clock) = engine();
    let mut expiring = put("default", b"k", b"old");
    expiring.ttl = Some(Ttl { milliseconds: 10 });
    engine.put(expiring).expect("expiring value should fit");

    engine.put(put("default", b"k", b"new")).expect("replacement should fit");

    clock.advance(11);
    assert_eq!(engine.get("default", b"k"), GetOutcome::Hit(b"new".to_vec()));
    assert_eq!(engine.stats().expirations, 0);
}

#[test]
fn accounting_accessors_do_not_reclaim_expired_entries() {
    let (mut engine, clock) = engine();
    let mut expiring = put("default", b"k", b"value");
    expiring.ttl = Some(Ttl { milliseconds: 10 });
    expiring.cost = Some(99);
    engine.put(expiring).expect("expiring value should fit");

    let memory_before_expiry = engine.memory_used_bytes();
    clock.advance(11);

    assert_eq!(engine.len(), 1);
    assert_eq!(engine.memory_used_bytes(), memory_before_expiry);
    assert_eq!(engine.cost_score_total(), 99);
    assert_eq!(engine.stats().expirations, 0);

    assert_eq!(engine.reclaim_expired(), 1);
    assert_eq!(engine.len(), 0);
    assert_eq!(engine.memory_used_bytes(), 0);
    assert_eq!(engine.cost_score_total(), 0);
    assert_eq!(engine.stats().expirations, 1);
}

#[test]
fn reclaim_expired_budget_limits_cleanup_work() {
    let (mut engine, clock) = engine();
    for key in [b"a", b"b", b"c"] {
        let mut command = put("default", key, b"value");
        command.ttl = Some(Ttl { milliseconds: 10 });
        engine.put(command).expect("expiring value should fit");
    }

    clock.advance(11);

    assert_eq!(engine.reclaim_expired_budget(1), 1);
    assert_eq!(engine.len(), 2);
    assert_eq!(engine.stats().expirations, 1);

    assert_eq!(engine.reclaim_expired_budget(1), 1);
    assert_eq!(engine.len(), 1);
    assert_eq!(engine.stats().expirations, 2);

    assert_eq!(engine.reclaim_expired_budget(16), 1);
    assert_eq!(engine.len(), 0);
    assert_eq!(engine.stats().expirations, 3);
}

#[test]
fn cost_score_total_tracks_accounted_entries_until_reclaimed() {
    let (mut engine, clock) = engine();
    let mut first = put("default", b"a", b"value");
    first.cost = Some(10);
    engine.put(first).expect("put should fit");

    let mut second = put("default", b"b", b"value");
    second.cost = Some(7);
    second.ttl = Some(Ttl { milliseconds: 10 });
    engine.put(second).expect("put should fit");
    assert_eq!(engine.cost_score_total(), 17);

    let mut replacement = put("default", b"a", b"value");
    replacement.cost = Some(3);
    engine.put(replacement).expect("put should fit");
    assert_eq!(engine.cost_score_total(), 10);

    assert!(engine.delete("default", b"a"));
    assert_eq!(engine.cost_score_total(), 7);

    clock.advance(11);
    assert_eq!(engine.cost_score_total(), 7);
    assert_eq!(engine.reclaim_expired(), 1);
    assert_eq!(engine.cost_score_total(), 0);
}

#[test]
fn reclaims_expired_entries_before_evicting_live_entries() {
    let (mut engine, clock) = tiny_engine(240, 1_000);
    let mut expiring = put("default", b"old", b"1111111111");
    expiring.ttl = Some(Ttl { milliseconds: 1 });
    engine.put(expiring).expect("old should fit");
    engine.put(put("default", b"live", b"2222222222")).expect("live should fit");

    clock.advance(2);
    let outcome = engine
        .put(put("default", b"new", b"3333333333"))
        .expect("new should fit after expired cleanup");

    assert_eq!(outcome.evicted, 0);
    assert_eq!(engine.stats().expirations, 1);
    assert_eq!(engine.stats().evictions, 0);
    assert_eq!(engine.get("default", b"old"), GetOutcome::Miss);
    assert_eq!(engine.get("default", b"live"), GetOutcome::Hit(b"2222222222".to_vec()));
    assert_eq!(engine.get("default", b"new"), GetOutcome::Hit(b"3333333333".to_vec()));
}

#[test]
fn lease_miss_grants_once_and_completion_writes_value() {
    let (mut engine, _) = engine();

    let first = engine.start_lease("default", b"k", 10_000);
    let token = match first {
        StartLeaseOutcome::LeaseGranted { token, stale_value } => {
            assert_eq!(stale_value, None);
            token
        }
        other => panic!("expected lease grant, got {other:?}"),
    };
    assert_eq!(engine.start_lease("default", b"k", 10_000), StartLeaseOutcome::LeaseDenied);

    engine
        .complete_lease(CompleteLeaseCommand {
            namespace: "default".to_string(),
            key: b"k".to_vec(),
            lease_token: token,
            value: b"fresh".to_vec(),
            ttl: Some(Ttl { milliseconds: 100 }),
            stale_ttl: None,
            tags: Vec::new(),
            cost: None,
        })
        .expect("lease completion should put value");

    assert_eq!(
        engine.start_lease("default", b"k", 10_000),
        StartLeaseOutcome::Hit(b"fresh".to_vec())
    );
}

#[test]
fn stale_lease_grant_includes_stale_value_and_active_lease_serves_stale() {
    let (mut engine, clock) = engine();
    let mut command = put("default", b"k", b"stale");
    command.ttl = Some(Ttl { milliseconds: 10 });
    command.stale_ttl = Some(Ttl { milliseconds: 100 });
    engine.put(command).expect("put should fit");

    clock.advance(11);
    let first = engine.start_lease("default", b"k", 10_000);
    let token = match first {
        StartLeaseOutcome::LeaseGranted { token, stale_value } => {
            assert_eq!(stale_value, Some(b"stale".to_vec()));
            token
        }
        other => panic!("expected stale lease grant, got {other:?}"),
    };
    assert_eq!(
        engine.start_lease("default", b"k", 10_000),
        StartLeaseOutcome::Stale {
            value: b"stale".to_vec()
        }
    );

    engine
        .complete_lease(CompleteLeaseCommand {
            namespace: "default".to_string(),
            key: b"k".to_vec(),
            lease_token: token,
            value: b"fresh".to_vec(),
            ttl: Some(Ttl { milliseconds: 100 }),
            stale_ttl: None,
            tags: Vec::new(),
            cost: None,
        })
        .expect("lease completion should refresh value");
    assert_eq!(engine.get("default", b"k"), GetOutcome::Hit(b"fresh".to_vec()));
}

#[test]
fn expired_lease_can_be_reacquired_and_old_token_is_rejected() {
    let (mut engine, clock) = engine();
    let first = engine.start_lease("default", b"k", 10);
    let old_token = match first {
        StartLeaseOutcome::LeaseGranted { token, .. } => token,
        other => panic!("expected lease grant, got {other:?}"),
    };

    clock.advance(11);
    let second = engine.start_lease("default", b"k", 10);
    let new_token = match second {
        StartLeaseOutcome::LeaseGranted { token, .. } => token,
        other => panic!("expected second lease grant, got {other:?}"),
    };
    assert_ne!(old_token, new_token);

    let error = engine
        .complete_lease(CompleteLeaseCommand {
            namespace: "default".to_string(),
            key: b"k".to_vec(),
            lease_token: old_token,
            value: b"old".to_vec(),
            ttl: None,
            stale_ttl: None,
            tags: Vec::new(),
            cost: None,
        })
        .expect_err("old token should fail");
    assert_eq!(error, CompleteLeaseError::InvalidLeaseToken);
}

#[test]
fn active_lease_denies_refresh_even_after_stale_value_expires() {
    let (mut engine, clock) = engine();
    let mut command = put("default", b"k", b"stale");
    command.ttl = Some(Ttl { milliseconds: 10 });
    command.stale_ttl = Some(Ttl { milliseconds: 10 });
    engine.put(command).expect("put should fit");

    clock.advance(11);
    assert!(matches!(
        engine.start_lease("default", b"k", 100),
        StartLeaseOutcome::LeaseGranted {
            stale_value: Some(_),
            ..
        }
    ));

    clock.advance(11);
    assert_eq!(engine.start_lease("default", b"k", 100), StartLeaseOutcome::LeaseDenied);

    clock.advance(100);
    assert!(matches!(
        engine.start_lease("default", b"k", 100),
        StartLeaseOutcome::LeaseGranted {
            stale_value: None,
            ..
        }
    ));
}

#[test]
fn lease_tokens_count_up_from_the_access_counter() {
    let (mut engine, _) = engine();
    match engine.start_lease("default", b"k", 100) {
        StartLeaseOutcome::LeaseGranted { token, .. } => assert_eq!(token, "lease-0"),
        other => panic!("expected lease grant, got {other:?}"),
    }
    engine.put(put("default", b"x", b"1")).expect("put should fit");
    match engine.start_lease("default", b"y", 100) {
        StartLeaseOutcome::LeaseGranted { token, .. } => assert_eq!(token, "lease-2"),
        other => panic!("expected lease grant, got {other:?}"),
    }
}

#[test]
fn completing_with_a_wrong_token_keeps_the_lease() {
    let (mut engine, _) = engine();
    let token = match engine.start_lease("default", b"k", 100) {
        StartLeaseOutcome::LeaseGranted { token, .. } => token,
        other => panic!("expected lease grant, got {other:?}"),
    };
    let wrong = CompleteLeaseCommand {
        namespace: "default".to_string(),
        key: b"k".to_vec(),
        lease_token: "lease-999".to_string(),
        value: b"v".to_vec(),
        ttl: None,
        stale_ttl: None,
        tags: Vec::new(),
        cost: None,
    };
    assert_eq!(engine.complete_lease(wrong), Err(CompleteLeaseError::InvalidLeaseToken));
    let right = CompleteLeaseCommand {
        namespace: "default".to_string(),
        key: b"k".to_vec(),
        lease_token: token,
        value: b"v".to_vec(),
        ttl: None,
        stale_ttl: None,
        tags: Vec::new(),
        cost: None,
    };
    assert!(engine.complete_lease(right).is_ok());
    assert_eq!(engine.get("default", b"k"), GetOutcome::Hit(b"v".to_vec()));
}

#[test]
fn memory_accounting_counts_overhead_namespace_key_value_and_tags() {
    let (mut engine, _) = engine();
    let mut command = put("ns", b"key", b"value");
    command.tags = vec!["t1".to_string(), "tag2".to_string()];
    engine.put(command).expect("put should fit");
    assert_eq!(engine.memory_used_bytes(), 96 + 2 + 3 + 5 + 2 + 4);
}

#[test]
fn default_engine_uses_default_limits() {
    let engine = Engine::new();
    assert_eq!(
        engine.limits(),
        EngineLimits { max_memory_bytes: 64 * 1024 * 1024, max_value_bytes: 8 * 1024 * 1024 }
    );
    assert!(engine.is_empty());
    assert_eq!(EngineLimits::default(), engine.limits());
}

#[test]
fn clock_readings_saturate_and_start_at_the_epoch() {
    assert_eq!(cachebox::engine::millis_since_epoch(Some(1_700_000_000_123)), 1_700_000_000_123);
    assert_eq!(cachebox::engine::millis_since_epoch(Some(u128::from(u64::MAX) + 5)), u64::MAX);
    assert_eq!(cachebox::engine::millis_since_epoch(None), 0);
}

#[test]
fn read_that_removes_an_expired_value_keeps_the_running_lease() {
    let (mut engine, clock) = engine();
    let mut command = put("default", b"k", b"stale");
    command.ttl = Some(Ttl { milliseconds: 10 });
    command.stale_ttl = Some(Ttl { milliseconds: 10 });
    engine.put(command).expect("put should fit");

    clock.advance(11);
    assert!(matches!(
        engine.start_lease("default", b"k", 100),
        StartLeaseOutcome::LeaseGranted { .. }
    ));

    clock.advance(11);
    assert_eq!(engine.get("default", b"k"), GetOutcome::Miss);
    assert!(engine.is_empty());
    assert_eq!(engine.start_lease("default", b"k", 100), StartLeaseOutcome::LeaseDenied);
}

#[test]
fn reclaim_keeps_the_running_lease() {
    let (mut engine, clock) = engine();
    let mut command = put("default", b"k", b"stale");
    command.ttl = Some(Ttl { milliseconds: 10 });
    command.stale_ttl = Some(Ttl { milliseconds: 10 });
    engine.put(command).expect("put should fit");

    clock.advance(11);
    assert!(matches!(
        engine.start_lease("default", b"k", 100),
        StartLeaseOutcome::LeaseGranted {
            stale_value: Some(_),
            ..
        }
    ));
    clock.advance(11);
    assert_eq!(engine.reclaim_expired(), 1);
    assert!(engine.is_empty());
    assert_eq!(engine.start_lease("default", b"k", 100), StartLeaseOutcome::LeaseDenied);
}

#[test]
fn reclaim_leaves_a_value_at_its_expiry_time() {
    let (mut engine, clock) = engine();
    let mut command = put("default", b"k", b"v");
    command.ttl = Some(Ttl { milliseconds: 10 });
    engine.put(command).expect("put should fit");

    clock.advance(10);
    assert_eq!(engine.reclaim_expired(), 0);
    assert_eq!(engine.stats().expirations, 0);
    assert_eq!(engine.get("default", b"k"), GetOutcome::Hit(b"v".to_vec()));

    clock.advance(1);
    assert_eq!(engine.reclaim_expired(), 1);
    assert_eq!(engine.stats().expirations, 1);
    assert_eq!(engine.get("default", b"k"), GetOutcome::Miss);
}

#[test]
fn reclaim_leaves_a_value_at_the_end_of_its_stale_window() {
    let (mut engine, clock) = engine();
    let mut command = put("default", b"k", b"v");
    command.ttl = Some(Ttl { milliseconds: 10 });
    command.stale_ttl = Some(Ttl { milliseconds: 5 });
    engine.put(command).expect("put should fit");

    clock.advance(15);
    assert_eq!(engine.reclaim_expired(), 0);
    assert_eq!(engine.get("default", b"k"), GetOutcome::Stale(b"v".to_vec()));
    clock.advance(1);
    assert_eq!(engine.reclaim_expired(), 1);
}

#[test]
fn totals_are_the_sums_over_stored_entries() {
    let (mut engine, clock) = engine();
    let mut first = put("default", b"a", b"xyz");
    first.tags = vec!["t".to_string()];
    first.cost = Some(5);
    engine.put(first).expect("put should fit");
    assert_eq!(engine.memory_used_bytes(), 96 + 7 + 1 + 3 + 1);
    assert_eq!(engine.cost_score_total(), 5);

    let mut second = put("other", b"bb", b"v");
    second.cost = Some(7);
    second.ttl = Some(Ttl { milliseconds: 1 });
    engine.put(second).expect("put should fit");
    assert_eq!(engine.memory_used_bytes(), 108 + 96 + 5 + 2 + 1);
    assert_eq!(engine.cost_score_total(), 12);

    let mut replacement = put("default", b"a", b"longer value");
    replacement.cost = Some(1);
    engine.put(replacement).expect("put should fit");
    assert_eq!(engine.memory_used_bytes(), 104 + 96 + 7 + 1 + 12);
    assert_eq!(engine.cost_score_total(), 8);

    clock.advance(2);
    assert_eq!(engine.get("other", b"bb"), GetOutcome::Miss);
    assert_eq!(engine.memory_used_bytes(), 116);
    assert_eq!(engine.cost_score_total(), 1);

    assert!(engine.delete("default", b"a"));
    assert_eq!(engine.memory_used_bytes(), 0);
    assert_eq!(engine.cost_score_total(), 0);
}

#[test]
fn a_completed_lease_cannot_be_completed_again() {
    let (mut engine, _clock) = engine();
    let token = match engine.start_lease("default", b"k", 100) {
        StartLeaseOutcome::LeaseGranted { token, .. } => token,
        other => panic!("expected a lease, got {other:?}"),
    };
    let command = CompleteLeaseCommand {
        namespace: "default".to_string(),
        key: b"k".to_vec(),
        lease_token: token,
        value: b"v".to_vec(),
        ttl: None,
        stale_ttl: None,
        tags: Vec::new(),
        cost: None,
    };
    assert!(engine.complete_lease(command.clone()).is_ok());
    assert_eq!(engine.get("default", b"k"), GetOutcome::Hit(b"v".to_vec()));
    assert_eq!(
        engine.complete_lease(command),
        Err(CompleteLeaseError::InvalidLeaseToken)
    );
}

#[test]
fn a_key_under_another_namespace_is_a_miss() {
    let (mut engine, _clock) = engine();
    engine.put(put("one", b"k", b"v")).expect("put should fit");
    assert_eq!(engine.get("two", b"k"), GetOutcome::Miss);
    assert_eq!(engine.len(), 1);
}

#[test]
fn a_write_counts_its_evictions() {
    let (mut engine, _clock) = tiny_engine(250, 100);
    engine.put(put("n", b"a", b"1")).expect("put should fit");
    engine.put(put("n", b"b", b"1")).expect("put should fit");
    let outcome = engine.put(put("n", b"c", b"1")).expect("put should fit");
    assert_eq!(outcome.evicted, 1);
    assert_eq!(engine.stats().evictions, 1);
    assert_eq!(engine.len(), 2);
    assert_eq!(engine.get("n", b"a"), GetOutcome::Miss);
    assert_eq!(engine.get("n", b"c"), GetOutcome::Hit(b"1".to_vec()));
}
