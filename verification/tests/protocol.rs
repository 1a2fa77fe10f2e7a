use cachebox::api::{ContentType, Ttl};
use cachebox::decode::{decode_borrowed_request_frame, decode_request_frame, decode_response_frame};
use cachebox::encode::{
    encode_request_frame, encode_request_frame_into, encode_response_frame,
    encode_response_frame_into, encode_response_payload_view_frame_into,
};
use cachebox::protocol::{
    Command, DecodeError, ErrorCode, Metadata, RequestFrame, RequestPayload, RequestPayloadView,
    ResponseFrame, ResponsePayload, ResponsePayloadView, BatchItem, KIND_RESPONSE, VERSION,
};

const MAX_PAYLOAD: usize = 1024;

fn round_trip(payload: RequestPayload) -> RequestFrame {
    let command = command_for_payload(&payload);
    let frame = RequestFrame {
        request_id: 42,
        command,
        payload,
    };
    let encoded = encode_request_frame(&frame);
    decode_request_frame(&encoded, MAX_PAYLOAD).expect("frame should decode")
}

fn command_for_payload(payload: &RequestPayload) -> Command {
    match payload {
        RequestPayload::Get { .. } => Command::Get,
        RequestPayload::Put { .. } => Command::Put,
        RequestPayload::Delete { .. } => Command::Delete,
        RequestPayload::BatchGet { .. } => Command::BatchGet,
        RequestPayload::TagInvalidate { .. } => Command::TagInvalidate,
        RequestPayload::LeaseStart { .. } => Command::LeaseStart,
        RequestPayload::LeaseComplete { .. } => Command::LeaseComplete,
    }
}

fn sample_metadata() -> Metadata {
    Metadata {
        ttl: Some(Ttl { milliseconds: 1000 }),
        stale_ttl: Some(Ttl { milliseconds: 5000 }),
        cost: Some(99),
        tags: vec!["model:gpt".to_string(), "tenant/a".to_string()],
        content_type: ContentType::Other,
    }
}

fn round_trip_err(payload: RequestPayload) -> DecodeError {
    let command = command_for_payload(&payload);
    let frame = RequestFrame {
        request_id: 1,
        command,
        payload,
    };
    let encoded = encode_request_frame(&frame);
    decode_request_frame(&encoded, MAX_PAYLOAD).expect_err("frame should fail")
}

#[test]
fn decodes_get_request() {
    let decoded = round_trip(RequestPayload::Get {
        namespace: "default".to_string(),
        key: b"user:1".to_vec(),
    });

    assert_eq!(decoded.request_id, 42);
    assert_eq!(decoded.command, Command::Get);
    assert_eq!(
        decoded.payload,
        RequestPayload::Get {
            namespace: "default".to_string(),
            key: b"user:1".to_vec()
        }
    );
}

#[test]
fn decodes_hot_request_views_without_owning_payload_fields() {
    let frame = encode_request_frame(&RequestFrame {
        request_id: 7,
        command: Command::Get,
        payload: RequestPayload::Get {
            namespace: "default".to_string(),
            key: b"user:1".to_vec(),
        },
    });
    let view = decode_borrowed_request_frame(&frame, MAX_PAYLOAD)
        .expect("borrowed decode")
        .expect("hot request view");

    assert_eq!(view.request_id, 7);
    assert_eq!(view.command, Command::Get);
    let RequestPayloadView::Get { namespace, key } = view.payload else {
        panic!("expected get view");
    };
    assert_eq!(namespace, "default");
    assert_eq!(key, b"user:1");

    let frame_start = frame.as_ptr() as usize;
    let frame_end = frame_start + frame.len();
    let namespace_ptr = namespace.as_ptr() as usize;
    let key_ptr = key.as_ptr() as usize;
    assert!((frame_start..frame_end).contains(&namespace_ptr));
    assert!((frame_start..frame_end).contains(&key_ptr));
}

#[test]
fn borrowed_decode_skips_owned_only_request_shapes() {
    let frame = encode_request_frame(&RequestFrame {
        request_id: 8,
        command: Command::Put,
        payload: RequestPayload::Put {
            namespace: "default".to_string(),
            key: b"k".to_vec(),
            metadata: Metadata::default(),
            value: b"value".to_vec(),
        },
    });

    assert_eq!(
        decode_borrowed_request_frame(&frame, MAX_PAYLOAD).expect("borrowed decode"),
        None
    );
}

#[test]
fn borrowed_decode_validates_hot_request_fields() {
    let invalid_namespace = encode_request_frame(&RequestFrame {
        request_id: 9,
        command: Command::Get,
        payload: RequestPayload::Get {
            namespace: "bad namespace".to_string(),
            key: b"k".to_vec(),
        },
    });

    assert_eq!(
        decode_borrowed_request_frame(&invalid_namespace, MAX_PAYLOAD),
        Err(DecodeError::InvalidNamespace)
    );

    let invalid_tag = encode_request_frame(&RequestFrame {
        request_id: 10,
        command: Command::TagInvalidate,
        payload: RequestPayload::TagInvalidate {
            namespace: "default".to_string(),
            tag: "bad tag".to_string(),
        },
    });

    assert_eq!(
        decode_borrowed_request_frame(&invalid_tag, MAX_PAYLOAD),
        Err(DecodeError::InvalidTag)
    );
}

#[test]
fn decodes_all_request_payload_shapes() {
    let requests = [
        RequestPayload::Put {
            namespace: "default".to_string(),
            key: b"k".to_vec(),
            metadata: sample_metadata(),
            value: b"value".to_vec(),
        },
        RequestPayload::Delete {
            namespace: "default".to_string(),
            key: b"k".to_vec(),
        },
        RequestPayload::BatchGet {
            namespace: "default".to_string(),
            keys: vec![b"a".to_vec(), b"b".to_vec()],
        },
        RequestPayload::TagInvalidate {
            namespace: "default".to_string(),
            tag: "tenant/a".to_string(),
        },
        RequestPayload::LeaseStart {
            namespace: "default".to_string(),
            key: b"k".to_vec(),
            lease_ttl_ms: 1000,
            allow_stale_ms: Some(5000),
        },
        RequestPayload::LeaseComplete {
            namespace: "default".to_string(),
            key: b"k".to_vec(),
            lease_token: "lease-1".to_string(),
            metadata: sample_metadata(),
            value: b"value".to_vec(),
        },
    ];

    for request in requests {
        assert_eq!(round_trip(request.clone()).payload, request);
    }
}

#[test]
fn encodes_response_frame() {
    let encoded = encode_response_frame(&ResponseFrame {
        request_id: 7,
        command: Command::Get,
        payload: ResponsePayload::Hit(b"bytes".to_vec()),
    });

    assert_eq!(&encoded[0..4], b"CBX1");
    assert_eq!(encoded[4], VERSION);
    assert_eq!(encoded[5], KIND_RESPONSE);
    assert_eq!(encoded[6], Command::Get.id());
    assert_eq!(u64::from_be_bytes(encoded[8..16].try_into().unwrap()), 7);
    assert_eq!(u32::from_be_bytes(encoded[16..20].try_into().unwrap()), 10);
    assert_eq!(encoded[24], 0x01);
    assert_eq!(u32::from_be_bytes(encoded[25..29].try_into().unwrap()), 5);
    assert_eq!(&encoded[29..34], b"bytes");
}

#[test]
fn encodes_borrowed_response_payload_view() {
    let mut buffer = Vec::new();
    encode_response_payload_view_frame_into(
        7,
        Command::Get,
        ResponsePayloadView::Hit(b"bytes"),
        &mut buffer,
    );

    assert_eq!(
        decode_response_frame(&buffer, MAX_PAYLOAD).expect("response frame"),
        ResponseFrame {
            request_id: 7,
            command: Command::Get,
            payload: ResponsePayload::Hit(b"bytes".to_vec()),
        }
    );
}

#[test]
fn encode_into_reuses_and_truncates_existing_buffers() {
    let request = RequestFrame {
        request_id: 11,
        command: Command::Get,
        payload: RequestPayload::Get {
            namespace: "default".to_string(),
            key: b"k".to_vec(),
        },
    };
    let mut buffer = vec![0xff; 256];

    encode_request_frame_into(&request, &mut buffer);

    assert!(buffer.len() < 256);
    assert_eq!(
        decode_request_frame(&buffer, MAX_PAYLOAD).expect("request frame"),
        request
    );

    let response = ResponseFrame {
        request_id: 11,
        command: Command::Get,
        payload: ResponsePayload::Miss,
    };
    encode_response_frame_into(&response, &mut buffer);

    assert!(buffer.len() < 256);
    assert_eq!(
        decode_response_frame(&buffer, MAX_PAYLOAD).expect("response frame"),
        response
    );
}

#[test]
fn rejects_bad_header_fields() {
    let frame = encode_request_frame(&RequestFrame {
        request_id: 1,
        command: Command::Get,
        payload: RequestPayload::Get {
            namespace: "default".to_string(),
            key: b"k".to_vec(),
        },
    });

    let mut bad_magic = frame.clone();
    bad_magic[0] = b'X';
    assert_eq!(
        decode_request_frame(&bad_magic, MAX_PAYLOAD),
        Err(DecodeError::BadMagic)
    );

    let mut bad_version = frame.clone();
    bad_version[4] = 2;
    assert_eq!(
        decode_request_frame(&bad_version, MAX_PAYLOAD),
        Err(DecodeError::UnsupportedVersion(2))
    );

    let mut response_kind = frame.clone();
    response_kind[5] = KIND_RESPONSE;
    assert_eq!(
        decode_request_frame(&response_kind, MAX_PAYLOAD),
        Err(DecodeError::InvalidKind(KIND_RESPONSE))
    );

    let mut bad_flags = frame.clone();
    bad_flags[7] = 1;
    assert_eq!(
        decode_request_frame(&bad_flags, MAX_PAYLOAD),
        Err(DecodeError::NonzeroFlags(1))
    );
}

#[test]
fn rejects_unknown_command_and_oversized_frame() {
    let mut frame = encode_request_frame(&RequestFrame {
        request_id: 1,
        command: Command::Get,
        payload: RequestPayload::Get {
            namespace: "default".to_string(),
            key: b"k".to_vec(),
        },
    });
    frame[6] = 0x7f;
    assert_eq!(
        decode_request_frame(&frame, MAX_PAYLOAD),
        Err(DecodeError::UnknownCommand(0x7f))
    );

    let mut oversized = frame;
    oversized[6] = Command::Get.id();
    oversized[16..20].copy_from_slice(&2048u32.to_be_bytes());
    assert_eq!(
        decode_request_frame(&oversized, MAX_PAYLOAD),
        Err(DecodeError::FrameTooLarge {
            payload_len: 2048,
            max: MAX_PAYLOAD
        })
    );
}

#[test]
fn rejects_truncated_and_trailing_payloads() {
    let frame = encode_request_frame(&RequestFrame {
        request_id: 1,
        command: Command::Get,
        payload: RequestPayload::Get {
            namespace: "default".to_string(),
            key: b"k".to_vec(),
        },
    });
    let truncated = &frame[..frame.len() - 1];
    assert!(matches!(
        decode_request_frame(truncated, MAX_PAYLOAD),
        Err(DecodeError::TruncatedPayload { .. })
    ));

    let mut trailing = frame;
    let payload_len = u32::from_be_bytes(trailing[16..20].try_into().unwrap()) + 1;
    trailing[16..20].copy_from_slice(&payload_len.to_be_bytes());
    trailing.push(0);
    assert_eq!(
        decode_request_frame(&trailing, MAX_PAYLOAD),
        Err(DecodeError::TrailingBytes(1))
    );
}

#[test]
fn rejects_invalid_payload_values() {
    assert_eq!(
        round_trip_err(RequestPayload::BatchGet {
            namespace: "default".to_string(),
            keys: Vec::new(),
        }),
        DecodeError::InvalidPayload("batch get requires at least one key")
    );
    assert_eq!(
        round_trip_err(RequestPayload::LeaseStart {
            namespace: "default".to_string(),
            key: b"k".to_vec(),
            lease_ttl_ms: 0,
            allow_stale_ms: None,
        }),
        DecodeError::InvalidPayload("lease ttl must be greater than zero")
    );
    assert_eq!(
        round_trip_err(RequestPayload::LeaseComplete {
            namespace: "default".to_string(),
            key: b"k".to_vec(),
            lease_token: String::new(),
            metadata: Metadata::default(),
            value: b"value".to_vec(),
        }),
        DecodeError::InvalidPayload("lease token must be non-empty")
    );
}

#[test]
fn rejects_invalid_namespace_and_tag() {
    assert_eq!(
        round_trip_err(RequestPayload::Get {
            namespace: "bad namespace".to_string(),
            key: b"k".to_vec(),
        }),
        DecodeError::InvalidNamespace
    );
    assert_eq!(
        round_trip_err(RequestPayload::TagInvalidate {
            namespace: "default".to_string(),
            tag: "bad tag!".to_string(),
        }),
        DecodeError::InvalidTag
    );
}

#[test]
fn every_response_shape_survives_a_round_trip() {
    let responses = [
        ResponsePayload::Ack,
        ResponsePayload::Stale(b"old".to_vec()),
        ResponsePayload::Miss,
        ResponsePayload::Stored { evicted: 3 },
        ResponsePayload::Deleted { removed: true },
        ResponsePayload::Invalidated { removed: 9 },
        ResponsePayload::LeaseGranted { lease_token: "lease-4".to_string(), stale_value: Some(b"s".to_vec()) },
        ResponsePayload::LeaseGranted { lease_token: "lease-5".to_string(), stale_value: None },
        ResponsePayload::LeaseDenied,
        ResponsePayload::Error { code: ErrorCode::InvalidLeaseToken, message: "nope".to_string() },
        ResponsePayload::BatchGet { items: vec![BatchItem::Hit(b"a".to_vec()), BatchItem::Stale(b"b".to_vec()), BatchItem::Miss] },
    ];
    for payload in responses {
        let command = if matches!(payload, ResponsePayload::BatchGet { .. }) {
            Command::BatchGet
        } else {
            Command::Get
        };
        let frame = ResponseFrame { request_id: 99, command, payload };
        let bytes = encode_response_frame(&frame);
        assert_eq!(decode_response_frame(&bytes, MAX_PAYLOAD), Ok(frame));
    }
}

#[test]
fn command_and_error_code_ids_round_trip() {
    for id in 0u8..=255 {
        if let Ok(command) = Command::from_id(id) {
            assert_eq!(command.id(), id);
        }
    }
    assert_eq!(Command::from_id(0), Err(DecodeError::UnknownCommand(0)));
    assert_eq!(ErrorCode::from_id(ErrorCode::FrameTooLarge.id()), Ok(ErrorCode::FrameTooLarge));
}
