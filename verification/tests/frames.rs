use cachebox::decode::decode_response_frame;
use cachebox::encode::encode_request_frame;
use cachebox::engine::EngineLimits;
use cachebox::frames::{
    coalesce_native_responses, coalesce_step, execute_native_frame, execute_native_frame_bytes_into,
    response_fits, MAX_RESPONSE_WRITE_BATCH_BYTES, MAX_RESPONSE_WRITE_BATCH_FRAMES,
};
use cachebox::native::Metrics;
use cachebox::protocol::{
    BatchItem, Command, ErrorCode, Metadata, RequestFrame, RequestPayload, ResponsePayload,
    MAGIC, VERSION,
};
use cachebox::sharded::ShardedEngine;
use tokio::sync::mpsc;

fn request(request_id: u64, command: Command, payload: RequestPayload) -> Vec<u8> {
    encode_request_frame(&RequestFrame {
        request_id,
        command,
        payload,
    })
}

fn answer(engine: &mut ShardedEngine, metrics: &mut Metrics, frame: &[u8]) -> Option<cachebox::protocol::ResponseFrame> {
    let mut out = Vec::new();
    assert!(execute_native_frame_bytes_into(engine, metrics, frame, 8192, 1, &mut out));
    if out.is_empty() {
        None
    } else {
        Some(decode_response_frame(&out, 8192).expect("response decodes"))
    }
}

#[test]
fn coalesce_native_responses_drains_queued_frames_in_order() {
    let (tx, mut rx) = mpsc::channel(4);
    tx.try_send(vec![3, 4]).expect("second response");
    tx.try_send(vec![5]).expect("third response");
    drop(tx);

    assert_eq!(
        coalesce_native_responses(vec![1, 2], &mut rx),
        vec![1, 2, 3, 4, 5]
    );
}

#[test]
fn coalescing_stops_at_the_frame_limit() {
    let (tx, mut rx) = mpsc::channel(64);
    for i in 0..40u8 {
        tx.try_send(vec![i]).expect("queued response");
    }
    let batch = coalesce_native_responses(vec![255], &mut rx);
    assert_eq!(batch.len(), MAX_RESPONSE_WRITE_BATCH_FRAMES);
    assert_eq!(batch[0], 255);
    assert_eq!(batch[1..], (0..31u8).collect::<Vec<u8>>()[..]);
    assert_eq!(rx.try_recv().expect("left on the channel"), vec![31]);
}

#[test]
fn coalescing_stops_once_the_byte_limit_is_passed() {
    let (tx, mut rx) = mpsc::channel(8);
    tx.try_send(vec![1; MAX_RESPONSE_WRITE_BATCH_BYTES]).expect("large response");
    tx.try_send(vec![2; 3]).expect("next response");
    let batch = coalesce_native_responses(vec![0; 10], &mut rx);
    assert_eq!(batch.len(), 10 + MAX_RESPONSE_WRITE_BATCH_BYTES);
    assert_eq!(rx.try_recv().expect("left on the channel"), vec![2; 3]);
}

#[test]
fn frames_are_answered_with_their_id_and_command() {
    let mut engine = ShardedEngine::with_limits(EngineLimits::default());
    let mut metrics = Metrics::default();

    let put = request(
        7,
        Command::Put,
        RequestPayload::Put {
            namespace: "default".to_string(),
            key: b"k".to_vec(),
            metadata: Metadata::default(),
            value: b"v".to_vec(),
        },
    );
    let stored = answer(&mut engine, &mut metrics, &put).expect("stored");
    assert_eq!(stored.request_id, 7);
    assert_eq!(stored.command, Command::Put);
    assert_eq!(stored.payload, ResponsePayload::Stored { evicted: 0 });

    let get = request(
        8,
        Command::Get,
        RequestPayload::Get {
            namespace: "default".to_string(),
            key: b"k".to_vec(),
        },
    );
    let hit = answer(&mut engine, &mut metrics, &get).expect("hit");
    assert_eq!(hit.request_id, 8);
    assert_eq!(hit.payload, ResponsePayload::Hit(b"v".to_vec()));

    let batch = request(
        9,
        Command::BatchGet,
        RequestPayload::BatchGet {
            namespace: "default".to_string(),
            keys: vec![b"k".to_vec(), b"missing".to_vec()],
        },
    );
    let items = answer(&mut engine, &mut metrics, &batch).expect("batch");
    assert_eq!(
        items.payload,
        ResponsePayload::BatchGet {
            items: vec![BatchItem::Hit(b"v".to_vec()), BatchItem::Miss]
        }
    );

    let delete = request(
        10,
        Command::Delete,
        RequestPayload::Delete {
            namespace: "default".to_string(),
            key: b"k".to_vec(),
        },
    );
    let deleted = answer(&mut engine, &mut metrics, &delete).expect("deleted");
    assert_eq!(deleted.payload, ResponsePayload::Deleted { removed: true });

    let miss = answer(&mut engine, &mut metrics, &get).expect("miss");
    assert_eq!(miss.payload, ResponsePayload::Miss);

    let snapshot = metrics.snapshot();
    assert_eq!(snapshot.put_requests, 1);
    assert_eq!(snapshot.get_requests, 2);
    assert_eq!(snapshot.hits_total, 2);
    assert_eq!(snapshot.misses_total, 2);
}

#[test]
fn unknown_commands_are_answered_with_a_protocol_error() {
    let mut engine = ShardedEngine::with_limits(EngineLimits::default());
    let mut metrics = Metrics::default();
    let mut frame = Vec::new();
    frame.extend_from_slice(&MAGIC);
    frame.push(VERSION);
    frame.push(0);
    frame.push(0xff);
    frame.push(0);
    frame.extend_from_slice(&42u64.to_be_bytes());
    frame.extend_from_slice(&0u32.to_be_bytes());
    frame.extend_from_slice(&0u32.to_be_bytes());

    let response = answer(&mut engine, &mut metrics, &frame).expect("error response");
    assert_eq!(response.request_id, 42);
    assert_eq!(response.command, Command::Get);
    assert!(matches!(
        response.payload,
        ResponsePayload::Error {
            code: ErrorCode::UnknownCommand,
            ..
        }
    ));
}

#[test]
fn frames_without_a_header_get_no_answer() {
    let mut engine = ShardedEngine::with_limits(EngineLimits::default());
    let mut metrics = Metrics::default();
    assert!(answer(&mut engine, &mut metrics, b"junk").is_none());
    assert!(execute_native_frame(&mut engine, &mut metrics, b"junk", 8192, 1).is_none());
    let snapshot = metrics.snapshot();
    assert_eq!(snapshot.get_requests, 0);
    assert_eq!(snapshot.errors_total, 0);
}

#[test]
fn owned_and_borrowed_answers_agree() {
    let mut engine = ShardedEngine::with_limits(EngineLimits::default());
    let mut metrics = Metrics::default();
    let put = request(
        1,
        Command::Put,
        RequestPayload::Put {
            namespace: "default".to_string(),
            key: b"k".to_vec(),
            metadata: Metadata::default(),
            value: b"value".to_vec(),
        },
    );
    let stored = execute_native_frame(&mut engine, &mut metrics, &put, 8192, 1).expect("stored");
    assert_eq!(stored.payload, ResponsePayload::Stored { evicted: 0 });
    let get = request(
        2,
        Command::Get,
        RequestPayload::Get {
            namespace: "default".to_string(),
            key: b"k".to_vec(),
        },
    );
    let hit = execute_native_frame(&mut engine, &mut metrics, &get, 8192, 1).expect("hit");
    assert_eq!(hit.payload, ResponsePayload::Hit(b"value".to_vec()));
    let encoded = answer(&mut engine, &mut metrics, &get).expect("hit again");
    assert_eq!(encoded, hit);
}

#[test]
fn small_responses_fit_in_a_frame() {
    assert!(response_fits(&ResponsePayload::Miss));
    assert!(response_fits(&ResponsePayload::Hit(vec![0; 1024])));
    assert!(response_fits(&ResponsePayload::BatchGet {
        items: vec![BatchItem::Hit(vec![1; 10]), BatchItem::Miss]
    }));
}

#[test]
fn coalesce_step_appends_and_says_whether_to_poll_again() {
    let mut batch = vec![1u8, 2];
    let mut frames: usize = 1;
    assert!(coalesce_step(&mut batch, &mut frames, vec![3]));
    assert_eq!(batch, vec![1, 2, 3]);
    assert_eq!(frames, 2);

    let mut batch = vec![0u8; 65_000];
    let mut frames: usize = 1;
    assert!(!coalesce_step(&mut batch, &mut frames, vec![9u8; 600]));
    assert_eq!(batch.len(), 65_600);
    assert_eq!(batch[65_599], 9);
    assert_eq!(frames, 2);

    let mut batch = vec![0u8; 65_000];
    let mut frames: usize = 1;
    assert!(!coalesce_step(&mut batch, &mut frames, vec![9u8; 536]));
    assert_eq!(batch.len(), 65_536);

    let mut batch = vec![5u8];
    let mut frames: usize = 31;
    assert!(!coalesce_step(&mut batch, &mut frames, vec![6u8]));
    assert_eq!(batch, vec![5, 6]);
    assert_eq!(frames, 32);
}
