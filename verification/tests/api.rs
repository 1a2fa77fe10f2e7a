use cachebox::api::{
    allowed_methods, parse_put_metadata, parse_route, ApiError, ContentType, ErrorEnvelope,
    Method, PutMetadata, Route, StatusCode, Ttl,
};

#[test]
fn parses_key_route_with_binary_percent_encoded_key() {
    let route =
        parse_route("/v1/namespaces/default/keys/user%3A123%00%FF").expect("valid key route");

    assert_eq!(
        route,
        Route::Key {
            namespace: "default".to_string(),
            key: b"user:123\0\xff".to_vec()
        }
    );
}

#[test]
fn parses_control_routes() {
    let cases = [
        ("/healthz", Route::Health, vec![Method::Get]),
        ("/metrics", Route::Metrics, vec![Method::Get]),
        (
            "/v1/namespaces/app/batch/get",
            Route::BatchGet {
                namespace: "app".to_string(),
            },
            vec![Method::Post],
        ),
        (
            "/v1/namespaces/app/tags/org%3A9/invalidate",
            Route::InvalidateTag {
                namespace: "app".to_string(),
                tag: b"org:9".to_vec(),
            },
            vec![Method::Post],
        ),
        (
            "/v1/namespaces/app/leases/k%2F1",
            Route::StartLease {
                namespace: "app".to_string(),
                key: b"k/1".to_vec(),
            },
            vec![Method::Post],
        ),
        (
            "/v1/namespaces/app/leases/k%2F1/complete",
            Route::CompleteLease {
                namespace: "app".to_string(),
                key: b"k/1".to_vec(),
            },
            vec![Method::Put],
        ),
    ];

    for (path, expected_route, expected_methods) in cases {
        let route = parse_route(path).expect("valid route");
        assert_eq!(route, expected_route);
        assert_eq!(allowed_methods(&route), expected_methods);
    }
}

#[test]
fn rejects_malformed_routes() {
    let cases = [
        "/v2/namespaces/default/keys/a",
        "/v1/namespaces/default",
        "/v1/namespaces/default/keys/a/extra",
        "/v1/namespaces/default/tags/org%ZZ/invalidate",
    ];

    for path in cases {
        assert!(parse_route(path).is_err(), "{path} should fail");
    }
}

#[test]
fn rejects_invalid_namespaces() {
    let cases = [
        "/v1/namespaces/has.dot/keys/a",
        "/v1/namespaces/has%2Fslash/keys/a",
        "/v1/namespaces//keys/a",
    ];

    for path in cases {
        assert!(matches!(
            parse_route(path),
            Err(ApiError::InvalidPath | ApiError::InvalidNamespace)
        ));
    }
}

#[test]
fn parses_put_metadata() {
    let metadata = parse_put_metadata(&[
        ("Cachebox-TTL", "300s"),
        ("Cachebox-Stale-TTL", "5m"),
        ("Cachebox-Tags", "user:123, org:9"),
        ("Cachebox-Cost", "42"),
        ("Content-Type", "application/octet-stream"),
    ])
    .expect("valid metadata");

    assert_eq!(
        metadata,
        PutMetadata {
            ttl: Some(Ttl {
                milliseconds: 300_000
            }),
            stale_ttl: Some(Ttl {
                milliseconds: 300_000
            }),
            tags: vec!["user:123".to_string(), "org:9".to_string()],
            cost: Some(42),
            content_type: ContentType::OctetStream,
        }
    );
}

#[test]
fn parses_ttl_units() {
    let cases = [
        ("1ms", 1),
        ("2s", 2_000),
        ("3m", 180_000),
        ("4h", 14_400_000),
        ("5", 5_000),
    ];

    for (value, milliseconds) in cases {
        let metadata = parse_put_metadata(&[("Cachebox-TTL", value)]).expect("valid ttl metadata");
        assert_eq!(metadata.ttl, Some(Ttl { milliseconds }));
    }
}

#[test]
fn rejects_malformed_metadata() {
    let cases = [
        ("Cachebox-TTL", "0"),
        ("Cachebox-TTL", "-1s"),
        ("Cachebox-TTL", "1day"),
        ("Cachebox-Tags", "valid,,invalid"),
        ("Cachebox-Tags", "snowman-☃"),
        ("Cachebox-Cost", "large"),
    ];

    for (header, value) in cases {
        assert!(
            parse_put_metadata(&[(header, value)]).is_err(),
            "{header}: {value} should fail"
        );
    }
}

#[test]
fn error_envelopes_are_deterministic() {
    let error = ApiError::InvalidPath;

    assert_eq!(error.status_code(), StatusCode::BadRequest);
    assert_eq!(
        error.envelope(),
        ErrorEnvelope {
            code: "invalid_path",
            message: "request path is not a supported Cachebox route".to_string()
        }
    );
}

#[test]
fn ttl_values_are_trimmed_of_unicode_whitespace() {
    let metadata = parse_put_metadata(&[("cachebox-ttl", "\u{3000} 7s\u{a0}\t")]).expect("trimmed ttl");
    assert_eq!(metadata.ttl, Some(Ttl { milliseconds: 7_000 }));
}

#[test]
fn ttl_accepts_a_plus_sign_and_rejects_overflow() {
    let metadata = parse_put_metadata(&[("Cachebox-TTL", "+3ms")]).expect("plus sign");
    assert_eq!(metadata.ttl, Some(Ttl { milliseconds: 3 }));
    let error = parse_put_metadata(&[("Cachebox-TTL", " 18446744073709551615s ")]).expect_err("overflow");
    assert_eq!(
        error,
        ApiError::InvalidTtl {
            header: "Cachebox-TTL",
            value: "18446744073709551615s".to_string()
        }
    );
    assert_eq!(
        error.envelope().message,
        "Cachebox-TTL has invalid TTL value '18446744073709551615s'"
    );
}

#[test]
fn cost_errors_carry_the_raw_value() {
    let error = parse_put_metadata(&[("CACHEBOX-COST", " 5")]).expect_err("cost is not trimmed");
    assert_eq!(error, ApiError::InvalidCost { value: " 5".to_string() });
    assert_eq!(error.envelope().code, "invalid_cost");
}

#[test]
fn content_type_is_matched_without_case_and_unknown_headers_are_ignored() {
    let metadata = parse_put_metadata(&[
        ("Content-Type", "Application/Octet-Stream"),
        ("X-Other", "ignored"),
    ])
    .expect("metadata");
    assert_eq!(metadata.content_type, ContentType::OctetStream);
    let other = parse_put_metadata(&[("content-type", "text/plain")]).expect("metadata");
    assert_eq!(other.content_type, ContentType::Other);
    assert_eq!(other, PutMetadata { content_type: ContentType::Other, ..PutMetadata::default() });
}

#[test]
fn incomplete_percent_escapes_are_refused() {
    assert_eq!(
        parse_route("/v1/namespaces/app/keys/a%4"),
        Err(ApiError::InvalidKeyEncoding)
    );
    assert_eq!(
        parse_route("//v1//namespaces/app/keys/%41%62/"),
        Ok(Route::Key { namespace: "app".to_string(), key: b"Ab".to_vec() })
    );
}
