use cachebox::encode::encode_request_frame;
use cachebox::engine::EngineLimits;
use cachebox::native::{
    drain_frame_ranges, execute_native_payload_with_metrics, find_complete_native_frames,
    native_decode_error_response, admin_action, admin_counts, AdminAction, FrameDrain, Metrics, MetricsShard,
    MetricsSnapshot,
};
use cachebox::protocol::{
    BatchItem, Command, DecodeError, ErrorCode, Metadata, RequestFrame, RequestPayload,
    ResponsePayload,
};
use cachebox::sharded::ShardedEngine;

#[test]
fn metrics_snapshot_aggregates_request_shards() {
    let mut metrics = Metrics::default();
    metrics.record_for_request(
        1,
        1,
        MetricsSnapshot { get_requests: 1, ..MetricsSnapshot::default() },
    );
    metrics.record_for_request(
        2,
        1,
        MetricsSnapshot { hits_total: 1, ..MetricsSnapshot::default() },
    );
    metrics.record_admin(MetricsSnapshot { requests_total: 1, ..MetricsSnapshot::default() });

    let snapshot = metrics.snapshot();
    assert_eq!(snapshot.requests_total, 1);
    assert_eq!(snapshot.get_requests, 1);
    assert_eq!(snapshot.hits_total, 1);
}

fn get_frame(request_id: u64, key: &[u8]) -> Vec<u8> {
    encode_request_frame(&RequestFrame {
        request_id,
        command: Command::Get,
        payload: RequestPayload::Get {
            namespace: "default".to_string(),
            key: key.to_vec(),
        },
    })
}

#[test]
fn find_complete_native_frames_returns_all_buffered_ranges() {
    let first = get_frame(1, b"a");
    let second = get_frame(2, b"b");
    let mut buffer = [first.as_slice(), second.as_slice()].concat();

    let FrameDrain::Frames(frames) = find_complete_native_frames(&buffer, 8192) else {
        panic!("expected complete frames");
    };

    assert_eq!(frames, vec![0..first.len(), first.len()..buffer.len()]);
    assert_eq!(&buffer[frames[0].clone()], first.as_slice());
    assert_eq!(&buffer[frames[1].clone()], second.as_slice());
    drain_frame_ranges(&mut buffer, &frames);
    assert!(buffer.is_empty());
}

#[test]
fn find_complete_native_frames_keeps_partial_frame_buffered() {
    let frame = get_frame(1, b"a");
    let split = frame.len() - 3;
    let buffer = frame[..split].to_vec();

    assert!(matches!(
        find_complete_native_frames(&buffer, 8192),
        FrameDrain::NeedMore
    ));
    assert_eq!(buffer, frame[..split]);
}

#[test]
fn find_complete_native_frames_closes_on_oversized_payload() {
    let mut buffer = get_frame(1, b"a");
    buffer[16..20].copy_from_slice(&9000_u32.to_be_bytes());

    assert!(matches!(
        find_complete_native_frames(&buffer, 8192),
        FrameDrain::Close
    ));
}

#[test]
fn drain_keeps_the_bytes_after_the_last_frame() {
    let first = get_frame(1, b"a");
    let second = get_frame(2, b"b");
    let mut buffer = [first.as_slice(), &second[..5]].concat();
    let FrameDrain::Frames(frames) = find_complete_native_frames(&buffer, 8192) else {
        panic!("expected one complete frame");
    };
    assert_eq!(frames.len(), 1);
    drain_frame_ranges(&mut buffer, &frames);
    assert_eq!(buffer, second[..5].to_vec());
}

#[test]
fn native_execution_uses_decoded_payloads_without_http_request_accounting() {
    let mut engine = ShardedEngine::with_limits(EngineLimits::default());
    let mut metrics = Metrics::default();
    let mut shard = MetricsShard::new();

    let stored = execute_native_payload_with_metrics(
        &mut engine,
        &mut shard,
        RequestPayload::Put {
            namespace: "default".to_string(),
            key: b"direct-key".to_vec(),
            metadata: Metadata {
                tags: vec!["direct-tag".to_string()],
                ..Metadata::default()
            },
            value: b"direct-value".to_vec(),
        },
    );
    assert_eq!(stored, ResponsePayload::Stored { evicted: 0 });

    let hit = execute_native_payload_with_metrics(
        &mut engine,
        &mut shard,
        RequestPayload::Get {
            namespace: "default".to_string(),
            key: b"direct-key".to_vec(),
        },
    );
    assert_eq!(hit, ResponsePayload::Hit(b"direct-value".to_vec()));

    let batch = execute_native_payload_with_metrics(
        &mut engine,
        &mut shard,
        RequestPayload::BatchGet {
            namespace: "default".to_string(),
            keys: vec![b"direct-key".to_vec(), b"missing".to_vec()],
        },
    );
    assert_eq!(
        batch,
        ResponsePayload::BatchGet {
            items: vec![BatchItem::Hit(b"direct-value".to_vec()), BatchItem::Miss]
        }
    );

    let invalidated = execute_native_payload_with_metrics(
        &mut engine,
        &mut shard,
        RequestPayload::TagInvalidate {
            namespace: "default".to_string(),
            tag: "direct-tag".to_string(),
        },
    );
    assert_eq!(invalidated, ResponsePayload::Invalidated { removed: 1 });

    let lease = execute_native_payload_with_metrics(
        &mut engine,
        &mut shard,
        RequestPayload::LeaseStart {
            namespace: "default".to_string(),
            key: b"lease-direct".to_vec(),
            lease_ttl_ms: 60_000,
            allow_stale_ms: None,
        },
    );
    let token = match lease {
        ResponsePayload::LeaseGranted { lease_token, .. } => lease_token,
        other => panic!("expected native lease grant, got {other:?}"),
    };

    let complete = execute_native_payload_with_metrics(
        &mut engine,
        &mut shard,
        RequestPayload::LeaseComplete {
            namespace: "default".to_string(),
            key: b"lease-direct".to_vec(),
            lease_token: token,
            metadata: Metadata::default(),
            value: b"lease-value".to_vec(),
        },
    );
    assert_eq!(complete, ResponsePayload::Stored { evicted: 0 });

    let lease_hit = execute_native_payload_with_metrics(
        &mut engine,
        &mut shard,
        RequestPayload::LeaseStart {
            namespace: "default".to_string(),
            key: b"lease-direct".to_vec(),
            lease_ttl_ms: 60_000,
            allow_stale_ms: None,
        },
    );
    assert_eq!(lease_hit, ResponsePayload::Hit(b"lease-value".to_vec()));

    metrics.record_admin(shard.snapshot());
    let snapshot = metrics.snapshot();
    assert_eq!(snapshot.requests_total, 0);
    assert_eq!(snapshot.put_requests, 1);
    assert_eq!(snapshot.get_requests, 1);
    assert_eq!(snapshot.batch_get_requests, 1);
    assert_eq!(snapshot.tag_invalidate_requests, 1);
    assert_eq!(snapshot.hits_total, 3);
    assert_eq!(snapshot.misses_total, 1);
    assert_eq!(snapshot.lease_grants, 1);
}

#[test]
fn refused_writes_answer_with_error_codes() {
    let mut engine = ShardedEngine::with_limits(EngineLimits { max_memory_bytes: 1_000_000, max_value_bytes: 2 });
    let mut shard = MetricsShard::new();
    let refused = execute_native_payload_with_metrics(
        &mut engine,
        &mut shard,
        RequestPayload::Put {
            namespace: "default".to_string(),
            key: b"k".to_vec(),
            metadata: Metadata::default(),
            value: b"big".to_vec(),
        },
    );
    assert_eq!(
        refused,
        ResponsePayload::Error {
            code: ErrorCode::ValueTooLarge,
            message: "value exceeds configured value limit".to_string()
        }
    );
    let bad_token = execute_native_payload_with_metrics(
        &mut engine,
        &mut shard,
        RequestPayload::LeaseComplete {
            namespace: "default".to_string(),
            key: b"k".to_vec(),
            lease_token: "lease-7".to_string(),
            metadata: Metadata::default(),
            value: b"v".to_vec(),
        },
    );
    assert!(matches!(bad_token, ResponsePayload::Error { code: ErrorCode::InvalidLeaseToken, .. }));
    assert_eq!(shard.snapshot().errors_total, 2);
}

#[test]
fn undecodable_frames_get_error_responses_when_the_header_is_there() {
    let mut frame = get_frame(77, b"a");
    frame[16..20].copy_from_slice(&9000_u32.to_be_bytes());
    let response = native_decode_error_response(
        &frame,
        DecodeError::FrameTooLarge { payload_len: 9000, max: 8192 },
    )
    .expect("header present");
    assert_eq!(response.request_id, 77);
    assert_eq!(response.command, Command::Get);
    assert_eq!(
        response.payload,
        ResponsePayload::Error {
            code: ErrorCode::FrameTooLarge,
            message: "FrameTooLarge { payload_len: 9000, max: 8192 }".to_string()
        }
    );
    let mut unknown = get_frame(5, b"a");
    unknown[6] = 0x7f;
    let response = native_decode_error_response(&unknown, DecodeError::UnknownCommand(0x7f)).expect("header");
    assert_eq!(response.command, Command::Get);
    assert_eq!(
        response.payload,
        ResponsePayload::Error { code: ErrorCode::UnknownCommand, message: "UnknownCommand(127)".to_string() }
    );
    assert!(native_decode_error_response(&frame[..10], DecodeError::IncompleteHeader).is_none());
    let mut bad_magic = get_frame(5, b"a");
    bad_magic[0] = b'X';
    assert!(native_decode_error_response(&bad_magic, DecodeError::BadMagic).is_none());
    let payload = native_decode_error_response(&get_frame(5, b"a"), DecodeError::InvalidPayload("truncated u8"))
        .expect("header")
        .payload;
    assert_eq!(
        payload,
        ResponsePayload::Error { code: ErrorCode::BadFrame, message: "InvalidPayload(\"truncated u8\")".to_string() }
    );
}

#[test]
fn snapshots_add_saturating() {
    let mut a = MetricsSnapshot::default();
    a.hits_total = u64::MAX - 1;
    a.get_requests = 2;
    let mut b = MetricsSnapshot::default();
    b.hits_total = 5;
    b.get_requests = 3;
    let sum = a.saturating_add(b);
    assert_eq!(sum.hits_total, u64::MAX);
    assert_eq!(sum.get_requests, 5);
}

#[test]
fn admin_http_serves_only_health_and_metrics() {
    assert_eq!(admin_action(true, "/metrics"), AdminAction::Metrics);
    assert_eq!(admin_action(true, "/healthz"), AdminAction::Health);
    assert_eq!(admin_action(false, "/healthz"), AdminAction::NotFound);
    assert_eq!(admin_action(true, "/v1/namespaces/default/keys/blob"), AdminAction::NotFound);
}

#[test]
fn a_batch_get_counts_one_request_and_each_outcome() {
    let mut engine = ShardedEngine::with_limits(EngineLimits::default());
    let mut shard = MetricsShard::new();
    let stored = execute_native_payload_with_metrics(
        &mut engine,
        &mut shard,
        RequestPayload::Put {
            namespace: "default".to_string(),
            key: b"direct-key".to_vec(),
            metadata: Metadata::default(),
            value: b"direct-value".to_vec(),
        },
    );
    assert_eq!(stored, ResponsePayload::Stored { evicted: 0 });
    let batch = execute_native_payload_with_metrics(
        &mut engine,
        &mut shard,
        RequestPayload::BatchGet {
            namespace: "default".to_string(),
            keys: vec![b"direct-key".to_vec(), b"missing".to_vec()],
        },
    );
    assert_eq!(
        batch,
        ResponsePayload::BatchGet { items: vec![BatchItem::Hit(b"direct-value".to_vec()), BatchItem::Miss] }
    );
    let s = shard.snapshot();
    assert_eq!(s.batch_get_requests, 1);
    assert_eq!(s.get_requests, 0);
    assert_eq!(s.hits_total, 1);
    assert_eq!(s.misses_total, 1);
    assert_eq!(s.put_requests, 1);
    assert_eq!(s.requests_total, 0);
    assert_eq!(s.delete_requests, 0);
    assert_eq!(s.errors_total, 0);
}

#[test]
fn lease_requests_count_their_outcomes_only() {
    let mut engine = ShardedEngine::with_limits(EngineLimits::default());
    let mut shard = MetricsShard::new();
    let request = RequestPayload::LeaseStart {
        namespace: "default".to_string(),
        key: b"k".to_vec(),
        lease_ttl_ms: 60_000,
        allow_stale_ms: None,
    };
    assert!(matches!(
        execute_native_payload_with_metrics(&mut engine, &mut shard, request.clone()),
        ResponsePayload::LeaseGranted { .. }
    ));
    assert_eq!(
        execute_native_payload_with_metrics(&mut engine, &mut shard, request),
        ResponsePayload::LeaseDenied
    );
    let s = shard.snapshot();
    assert_eq!(s.lease_grants, 1);
    assert_eq!(s.lease_denials, 1);
    assert_eq!(s.get_requests, 0);
    assert_eq!(s.misses_total, 0);
}

#[test]
fn admin_requests_count_as_admin_requests() {
    let mut metrics = Metrics::default();
    metrics.record_admin(admin_counts(AdminAction::Health));
    metrics.record_admin(admin_counts(AdminAction::NotFound));
    metrics.record_admin(admin_counts(AdminAction::Metrics));
    let s = metrics.snapshot();
    assert_eq!(s.requests_total, 2);
    assert_eq!(s.health_requests, 1);
    assert_eq!(s.errors_total, 1);
    assert_eq!(s.get_requests, 0);
}

#[test]
fn counters_wrap_like_atomics() {
    let mut shard = MetricsShard::new();
    shard.record(MetricsSnapshot { errors_total: u64::MAX, ..MetricsSnapshot::default() });
    shard.record(MetricsSnapshot { errors_total: 2, ..MetricsSnapshot::default() });
    assert_eq!(shard.snapshot().errors_total, 1);
}
