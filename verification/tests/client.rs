use std::collections::HashMap;

use cachebox::client::{
    batch_items, check_response, deleted_flag, invalidated_count, next_request_id, stored_count,
    ClientError, ExpectedResponse, PipelinedResponseMatcher,
};
use cachebox::protocol::{BatchItem, Command, ErrorCode, ResponseFrame, ResponsePayload};

fn expected(entries: &[(u64, usize, Command)]) -> HashMap<u64, ExpectedResponse> {
    entries
        .iter()
        .map(|(request_id, index, command)| {
            (
                *request_id,
                ExpectedResponse {
                    index: *index,
                    command: *command,
                },
            )
        })
        .collect()
}

#[test]
fn pipelined_matcher_returns_payloads_in_request_order() {
    let mut matcher = PipelinedResponseMatcher::new(
        3,
        expected(&[
            (10, 0, Command::Get),
            (11, 1, Command::Delete),
            (12, 2, Command::Get),
        ]),
    );

    matcher
        .push(ResponseFrame {
            request_id: 12,
            command: Command::Get,
            payload: ResponsePayload::Miss,
        })
        .expect("third response");
    matcher
        .push(ResponseFrame {
            request_id: 10,
            command: Command::Get,
            payload: ResponsePayload::Hit(b"value".to_vec()),
        })
        .expect("first response");
    matcher
        .push(ResponseFrame {
            request_id: 11,
            command: Command::Delete,
            payload: ResponsePayload::Deleted { removed: true },
        })
        .expect("second response");

    assert_eq!(
        matcher.finish().expect("matched responses"),
        vec![
            ResponsePayload::Hit(b"value".to_vec()),
            ResponsePayload::Deleted { removed: true },
            ResponsePayload::Miss,
        ]
    );
}

#[test]
fn pipelined_matcher_propagates_server_errors_after_matching() {
    let mut matcher = PipelinedResponseMatcher::new(
        2,
        expected(&[(1, 0, Command::Get), (2, 1, Command::Get)]),
    );
    matcher
        .push(ResponseFrame {
            request_id: 2,
            command: Command::Get,
            payload: ResponsePayload::Hit(b"value".to_vec()),
        })
        .expect("second response");
    matcher
        .push(ResponseFrame {
            request_id: 1,
            command: Command::Get,
            payload: ResponsePayload::Error {
                code: ErrorCode::InvalidNamespace,
                message: "invalid namespace".to_string(),
            },
        })
        .expect("first response");

    let error = matcher.finish().expect_err("server error");
    assert!(matches!(
        error,
        ClientError::Server {
            code: ErrorCode::InvalidNamespace,
            ..
        }
    ));
}

#[test]
fn pipelined_matcher_rejects_command_mismatch() {
    let mut matcher = PipelinedResponseMatcher::new(1, expected(&[(1, 0, Command::Get)]));

    let error = matcher
        .push(ResponseFrame {
            request_id: 1,
            command: Command::Put,
            payload: ResponsePayload::Stored { evicted: 0 },
        })
        .expect_err("command mismatch");

    assert!(matches!(error, ClientError::UnexpectedResponse(_)));
}

#[test]
fn pipelined_matcher_rejects_unknown_ids_and_reports_missing_payloads() {
    let mut matcher = PipelinedResponseMatcher::new(2, expected(&[(1, 0, Command::Get), (2, 1, Command::Get)]));
    let unknown = matcher
        .push(ResponseFrame {
            request_id: 9,
            command: Command::Get,
            payload: ResponsePayload::Miss,
        })
        .expect_err("unknown id");
    assert!(matches!(unknown, ClientError::UnexpectedResponse("unknown response request id")));
    matcher
        .push(ResponseFrame {
            request_id: 1,
            command: Command::Get,
            payload: ResponsePayload::Miss,
        })
        .expect("first response");
    let missing = matcher.finish().expect_err("second response missing");
    assert!(matches!(
        missing,
        ClientError::UnexpectedResponse("missing pipelined response payload")
    ));
}

#[test]
fn request_ids_count_up_and_skip_zero() {
    assert_eq!(next_request_id(1), 2);
    assert_eq!(next_request_id(41), 42);
    assert_eq!(next_request_id(u64::MAX), 1);
}

#[test]
fn responses_must_answer_their_request() {
    let response = |request_id, command, payload| ResponseFrame {
        request_id,
        command,
        payload,
    };
    assert_eq!(
        check_response(5, Command::Get, response(5, Command::Get, ResponsePayload::Miss)).unwrap(),
        ResponsePayload::Miss
    );
    assert!(matches!(
        check_response(5, Command::Get, response(6, Command::Get, ResponsePayload::Miss)),
        Err(ClientError::UnexpectedResponse("response header mismatch"))
    ));
    assert!(matches!(
        check_response(5, Command::Get, response(5, Command::Delete, ResponsePayload::Miss)),
        Err(ClientError::UnexpectedResponse("response header mismatch"))
    ));
    match check_response(
        5,
        Command::Put,
        response(
            5,
            Command::Put,
            ResponsePayload::Error {
                code: ErrorCode::ValueTooLarge,
                message: "too large".to_string(),
            },
        ),
    ) {
        Err(ClientError::Server { code, message }) => {
            assert_eq!(code, ErrorCode::ValueTooLarge);
            assert_eq!(message, "too large");
        }
        other => panic!("expected a server error, got {other:?}"),
    }
}

#[test]
fn results_are_read_out_of_matching_responses() {
    assert_eq!(stored_count(ResponsePayload::Stored { evicted: 3 }, "x").unwrap(), 3);
    assert!(matches!(
        stored_count(ResponsePayload::Miss, "put did not return stored"),
        Err(ClientError::UnexpectedResponse("put did not return stored"))
    ));
    assert!(deleted_flag(ResponsePayload::Deleted { removed: true }, "x").unwrap());
    assert!(deleted_flag(ResponsePayload::Miss, "x").is_err());
    assert_eq!(
        batch_items(ResponsePayload::BatchGet { items: vec![BatchItem::Miss] }, "x").unwrap(),
        vec![BatchItem::Miss]
    );
    assert!(batch_items(ResponsePayload::Miss, "x").is_err());
    assert_eq!(invalidated_count(ResponsePayload::Invalidated { removed: 4 }, "x").unwrap(), 4);
    assert!(invalidated_count(ResponsePayload::Stored { evicted: 0 }, "x").is_err());
}
