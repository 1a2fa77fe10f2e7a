use cachebox::api::{ApiError, ContentType, ErrorEnvelope, Method, PutMetadata, StatusCode, Ttl};
use cachebox::operation::{parse_operation, Operation, OperationError, RequestParts, LEASE_TOKEN_HEADER};

fn request<'a>(
    method: Method,
    path: &'a str,
    headers: Vec<(&'a str, &'a str)>,
    body: impl Into<Vec<u8>>,
) -> RequestParts<'a> {
    RequestParts {
        method,
        path,
        headers,
        body: body.into(),
    }
}

#[test]
fn parses_get_put_and_delete_operations() {
    let get = parse_operation(request(
        Method::Get,
        "/v1/namespaces/default/keys/user%3A1%00",
        vec![],
        [],
    ))
    .expect("get operation");
    assert_eq!(
        get,
        Operation::Get {
            namespace: "default".to_string(),
            key: b"user:1\0".to_vec(),
        }
    );

    let put = parse_operation(request(
        Method::Put,
        "/v1/namespaces/default/keys/blob",
        vec![("Cachebox-TTL", "2s"), ("Cachebox-Tags", "a,b")],
        b"\x00\xffvalue".to_vec(),
    ))
    .expect("put operation");
    assert_eq!(
        put,
        Operation::Put {
            namespace: "default".to_string(),
            key: b"blob".to_vec(),
            value: b"\x00\xffvalue".to_vec(),
            metadata: PutMetadata {
                ttl: Some(Ttl {
                    milliseconds: 2_000
                }),
                stale_ttl: None,
                tags: vec!["a".to_string(), "b".to_string()],
                cost: None,
                content_type: ContentType::OctetStream,
            },
        }
    );

    let delete = parse_operation(request(
        Method::Delete,
        "/v1/namespaces/default/keys/blob",
        vec![],
        [],
    ))
    .expect("delete operation");
    assert_eq!(
        delete,
        Operation::Delete {
            namespace: "default".to_string(),
            key: b"blob".to_vec(),
        }
    );
}

#[test]
fn parses_batch_get_operation() {
    let operation = parse_operation(request(
        Method::Post,
        "/v1/namespaces/app/batch/get",
        vec![],
        br#"{"keys":["a","user%3A1","bin%00%FF"]}"#.to_vec(),
    ))
    .expect("batch get operation");

    assert_eq!(
        operation,
        Operation::BatchGet {
            namespace: "app".to_string(),
            keys: vec![b"a".to_vec(), b"user:1".to_vec(), b"bin\0\xff".to_vec()],
        }
    );
}

#[test]
fn parses_tag_invalidation_operation() {
    let operation = parse_operation(request(
        Method::Post,
        "/v1/namespaces/app/tags/org%3A9/invalidate",
        vec![],
        [],
    ))
    .expect("tag invalidation operation");

    assert_eq!(
        operation,
        Operation::InvalidateTag {
            namespace: "app".to_string(),
            tag: b"org:9".to_vec(),
        }
    );
}

#[test]
fn parses_lease_operations() {
    let start = parse_operation(request(
        Method::Post,
        "/v1/namespaces/app/leases/key",
        vec![],
        br#"{"lease_ttl_ms":10000,"allow_stale_ms":60000}"#.to_vec(),
    ))
    .expect("start lease operation");
    assert_eq!(
        start,
        Operation::StartLease {
            namespace: "app".to_string(),
            key: b"key".to_vec(),
            lease_ttl_ms: 10_000,
            allow_stale_ms: Some(60_000),
        }
    );

    let complete = parse_operation(request(
        Method::Put,
        "/v1/namespaces/app/leases/key/complete",
        vec![(LEASE_TOKEN_HEADER, "lease-1"), ("Cachebox-Stale-TTL", "30s")],
        b"fresh bytes".to_vec(),
    ))
    .expect("complete lease operation");
    assert_eq!(
        complete,
        Operation::CompleteLease {
            namespace: "app".to_string(),
            key: b"key".to_vec(),
            lease_token: "lease-1".to_string(),
            value: b"fresh bytes".to_vec(),
            metadata: PutMetadata {
                ttl: None,
                stale_ttl: Some(Ttl {
                    milliseconds: 30_000
                }),
                tags: Vec::new(),
                cost: None,
                content_type: ContentType::OctetStream,
            },
        }
    );
}

#[test]
fn rejects_unsupported_methods_and_routes() {
    let method_error = parse_operation(request(Method::Post, "/v1/namespaces/app/keys/key", vec![], []))
        .expect_err("post key should fail");
    assert_eq!(method_error.status_code(), StatusCode::MethodNotAllowed);
    assert_eq!(method_error.envelope().code, "method_not_allowed");

    let route_error =
        parse_operation(request(Method::Get, "/nope", vec![], [])).expect_err("bad route should fail");
    assert!(matches!(route_error, OperationError::Api(ApiError::InvalidPath)));
}

#[test]
fn rejects_unexpected_bodies() {
    let error = parse_operation(request(
        Method::Get,
        "/v1/namespaces/app/keys/key",
        vec![],
        b"body".to_vec(),
    ))
    .expect_err("get with body should fail");

    assert_eq!(
        error.envelope(),
        ErrorEnvelope {
            code: "invalid_body",
            message: "request body must be empty for this operation".to_string(),
        }
    );
}

#[test]
fn rejects_malformed_batch_bodies() {
    let cases = [
        br#"{}"#.as_slice(),
        br#"{"keys":[]}"#.as_slice(),
        br#"{"keys":[1]}"#.as_slice(),
        br#"{"keys":["bad%XX"]}"#.as_slice(),
        b"\xff",
    ];

    for body in cases {
        assert!(
            parse_operation(request(
                Method::Post,
                "/v1/namespaces/app/batch/get",
                vec![],
                body.to_vec(),
            ))
            .is_err(),
            "{body:?} should fail"
        );
    }
}

#[test]
fn rejects_malformed_lease_requests() {
    let start_cases = [
        br#"{}"#.as_slice(),
        br#"{"lease_ttl_ms":0}"#.as_slice(),
        br#"{"lease_ttl_ms":-1}"#.as_slice(),
        br#"{"lease_ttl_ms":"100"}"#.as_slice(),
    ];

    for body in start_cases {
        assert!(
            parse_operation(request(
                Method::Post,
                "/v1/namespaces/app/leases/key",
                vec![],
                body.to_vec(),
            ))
            .is_err(),
            "{body:?} should fail"
        );
    }

    let complete_error = parse_operation(request(
        Method::Put,
        "/v1/namespaces/app/leases/key/complete",
        vec![],
        b"value".to_vec(),
    ))
    .expect_err("missing lease token should fail");
    assert_eq!(
        complete_error,
        OperationError::MissingHeader {
            header: LEASE_TOKEN_HEADER
        }
    );
}

#[test]
fn method_not_allowed_lists_the_accepted_methods() {
    let error = parse_operation(request(Method::Post, "/v1/namespaces/app/keys/key", vec![], []))
        .expect_err("post key should fail");
    assert_eq!(
        error.envelope().message,
        "Post is not allowed; expected one of [Get, Put, Delete]"
    );
}

#[test]
fn batch_keys_unescape_json_strings_before_percent_decoding() {
    let operation = parse_operation(request(
        Method::Post,
        "/v1/namespaces/app/batch/get",
        vec![],
        br#" { "keys" : [ "a\"b" , "c\\d", "e\/f\n" ] } "#.to_vec(),
    ))
    .expect("batch get operation");
    assert_eq!(
        operation,
        Operation::BatchGet {
            namespace: "app".to_string(),
            keys: vec![b"a\"b".to_vec(), b"c\\d".to_vec(), b"e/f\n".to_vec()],
        }
    );
}

#[test]
fn lease_bodies_report_their_errors() {
    let error = parse_operation(request(
        Method::Post,
        "/v1/namespaces/app/leases/key",
        vec![],
        br#"{"lease_ttl_ms":5,"allow_stale_ms":"x"}"#.to_vec(),
    ))
    .expect_err("bad stale allowance");
    assert_eq!(
        error,
        OperationError::InvalidBody { message: "allow_stale_ms must be an integer".to_string() }
    );
    let missing = parse_operation(request(Method::Post, "/v1/namespaces/app/leases/key", vec![], br#"{"x":1}"#.to_vec()))
        .expect_err("missing field");
    assert_eq!(
        missing,
        OperationError::InvalidBody { message: "missing field 'lease_ttl_ms'".to_string() }
    );
    let zero = parse_operation(request(Method::Post, "/v1/namespaces/app/leases/key", vec![], br#"{"lease_ttl_ms":0}"#.to_vec()))
        .expect_err("zero ttl");
    assert_eq!(zero.envelope().message, "lease_ttl_ms must be greater than zero");
    let health = parse_operation(request(Method::Get, "/healthz", vec![], [])).expect_err("not an operation");
    assert_eq!(health.status_code(), StatusCode::BadRequest);
}
