//! Typed cache operations: an HTTP request (method, path, headers, body)
//! mapped to the cache operation it asks for. Value bodies stay raw bytes;
//! the small JSON control bodies of batch reads and lease requests are read
//! by a deliberately simple scanner.

use vstd::prelude::*;
use crate::api::{
    allowed_methods, error_code, error_message, headers_view, metadata_of, methods_of,
    parse_put_metadata, parse_route, percent_decode, route_of, ApiError, ApiErrorModel,
    ErrorEnvelope, Method, MetadataModel, PutMetadata, Route, RouteModel, StatusCode,
};
use crate::bytes::{copy_bytes, lemma_text_bytes, str_from_utf8, text_bytes};
use crate::text::{
    lower, lower_eq, parse_u64, parse_u64_range, slice_range, trim, trim_range, trim_start,
    trim_start_range,
};
use crate::seqs::{find_first, lemma_find_first, lemma_find_first_absent, lemma_find_first_at};

verus! {

pub const LEASE_TOKEN_HEADER: &'static str = "Cachebox-Lease-Token";

pub struct RequestParts<'a> {
    pub method: Method,
    pub path: &'a str,
    pub headers: Vec<(&'a str, &'a str)>,
    pub body: Vec<u8>,
}

#[derive(Debug, Clone, PartialEq, Eq)]
pub enum Operation {
    Get { namespace: String, key: Vec<u8> },
    Put { namespace: String, key: Vec<u8>, value: Vec<u8>, metadata: PutMetadata },
    Delete { namespace: String, key: Vec<u8> },
    BatchGet { namespace: String, keys: Vec<Vec<u8>> },
    InvalidateTag { namespace: String, tag: Vec<u8> },
    StartLease { namespace: String, key: Vec<u8>, lease_ttl_ms: u64, allow_stale_ms: Option<u64> },
    CompleteLease {
        namespace: String,
        key: Vec<u8>,
        lease_token: String,
        value: Vec<u8>,
        metadata: PutMetadata,
    },
}

#[derive(Debug, Clone, PartialEq, Eq)]
pub enum OperationError {
    Api(ApiError),
    MethodNotAllowed { method: Method, allowed: Vec<Method> },
    InvalidBody { message: String },
    MissingHeader { header: &'static str },
}

// ---------------------------------------------------------------------------
// Models.
// ---------------------------------------------------------------------------

/// An operation, names and keys taken by their bytes.
pub enum OperationModel {
    Get { namespace: Seq<u8>, key: Seq<u8> },
    Put { namespace: Seq<u8>, key: Seq<u8>, value: Seq<u8>, metadata: MetadataModel },
    Delete { namespace: Seq<u8>, key: Seq<u8> },
    BatchGet { namespace: Seq<u8>, keys: Seq<Seq<u8>> },
    InvalidateTag { namespace: Seq<u8>, tag: Seq<u8> },
    StartLease { namespace: Seq<u8>, key: Seq<u8>, lease_ttl_ms: u64, allow_stale_ms: Option<u64> },
    CompleteLease {
        namespace: Seq<u8>,
        key: Seq<u8>,
        lease_token: Seq<u8>,
        value: Seq<u8>,
        metadata: MetadataModel,
    },
}

impl View for Operation {
    type V = OperationModel;

    open spec fn view(&self) -> OperationModel {
        match self {
            Operation::Get { namespace, key } => OperationModel::Get {
                namespace: text_bytes(namespace@),
                key: key@,
            },
            Operation::Put { namespace, key, value, metadata } => OperationModel::Put {
                namespace: text_bytes(namespace@),
                key: key@,
                value: value@,
                metadata: metadata@,
            },
            Operation::Delete { namespace, key } => OperationModel::Delete {
                namespace: text_bytes(namespace@),
                key: key@,
            },
            Operation::BatchGet { namespace, keys } => OperationModel::BatchGet {
                namespace: text_bytes(namespace@),
                keys: keys@.map_values(|k: Vec<u8>| k@),
            },
            Operation::InvalidateTag { namespace, tag } => OperationModel::InvalidateTag {
                namespace: text_bytes(namespace@),
                tag: tag@,
            },
            Operation::StartLease { namespace, key, lease_ttl_ms, allow_stale_ms } =>
                OperationModel::StartLease {
                namespace: text_bytes(namespace@),
                key: key@,
                lease_ttl_ms: *lease_ttl_ms,
                allow_stale_ms: *allow_stale_ms,
            },
            Operation::CompleteLease { namespace, key, lease_token, value, metadata } =>
                OperationModel::CompleteLease {
                namespace: text_bytes(namespace@),
                key: key@,
                lease_token: text_bytes(lease_token@),
                value: value@,
                metadata: metadata@,
            },
        }
    }
}

/// An operation error, texts by their characters.
pub enum OperationErrorModel {
    Api(ApiErrorModel),
    MethodNotAllowed { method: Method, allowed: Seq<Method> },
    InvalidBody { message: Seq<char> },
    MissingHeader { header: Seq<char> },
}

impl View for OperationError {
    type V = OperationErrorModel;

    open spec fn view(&self) -> OperationErrorModel {
        match self {
            OperationError::Api(e) => OperationErrorModel::Api(e@),
            OperationError::MethodNotAllowed { method, allowed } =>
                OperationErrorModel::MethodNotAllowed { method: *method, allowed: allowed@ },
            OperationError::InvalidBody { message } => OperationErrorModel::InvalidBody {
                message: message@,
            },
            OperationError::MissingHeader { header } => OperationErrorModel::MissingHeader {
                header: header@,
            },
        }
    }
}

pub open spec fn body_error<T>(message: Seq<char>) -> Result<T, OperationErrorModel> {
    Err(OperationErrorModel::InvalidBody { message })
}

// ---------------------------------------------------------------------------
// Errors.
// ---------------------------------------------------------------------------

/// The name of a method.
pub open spec fn method_name(m: Method) -> Seq<char> {
    match m {
        Method::Get => "Get"@,
        Method::Put => "Put"@,
        Method::Delete => "Delete"@,
        Method::Post => "Post"@,
    }
}

/// Method names separated by `, `.
pub open spec fn method_names(ms: Seq<Method>) -> Seq<char>
    decreases ms.len(),
{
    if ms.len() == 0 {
        Seq::empty()
    } else if ms.len() == 1 {
        method_name(ms[0])
    } else {
        method_names(ms.drop_last()) + ", "@ + method_name(ms.last())
    }
}

/// The message of an operation error's envelope.
pub open spec fn operation_message(e: OperationError) -> Seq<char> {
    match e {
        OperationError::Api(a) => error_message(a),
        OperationError::MethodNotAllowed { method, allowed } => method_name(method)
            + " is not allowed; expected one of ["@ + method_names(allowed@) + "]"@,
        OperationError::InvalidBody { message } => message@,
        OperationError::MissingHeader { header } => "missing required header "@ + header@,
    }
}

/// The code of an operation error's envelope.
pub open spec fn operation_code(e: OperationErrorModel) -> Seq<char> {
    match e {
        OperationErrorModel::Api(a) => error_code(a),
        OperationErrorModel::MethodNotAllowed { .. } => "method_not_allowed"@,
        OperationErrorModel::InvalidBody { .. } => "invalid_body"@,
        OperationErrorModel::MissingHeader { .. } => "missing_header"@,
    }
}

fn method_name_str(m: Method) -> (r: &'static str)
    ensures
        r@ == method_name(m),
{
    match m {
        Method::Get => "Get",
        Method::Put => "Put",
        Method::Delete => "Delete",
        Method::Post => "Post",
    }
}

impl OperationError {
    /// API errors are bad requests, a method a route does not take is not
    /// allowed, and a bad body or a missing header is a bad request.
    pub fn status_code(&self) -> (r: StatusCode)
        ensures
            r == match self@ {
                OperationErrorModel::MethodNotAllowed { .. } => StatusCode::MethodNotAllowed,
                _ => StatusCode::BadRequest,
            },
    {
        match self {
            OperationError::Api(error) => error.status_code(),
            OperationError::MethodNotAllowed { .. } => StatusCode::MethodNotAllowed,
            _ => StatusCode::BadRequest,
        }
    }

    /// The error's code and human-readable message.
    pub fn envelope(&self) -> (r: ErrorEnvelope)
        ensures
            r.code@ == operation_code(self@),
            r.message@ == operation_message(*self),
    {
        match self {
            OperationError::Api(error) => error.envelope(),
            OperationError::MethodNotAllowed { method, allowed } => {
                let mut message = String::from_str(method_name_str(*method));
                message.append(" is not allowed; expected one of [");
                let ghost start = message@;
                let mut i: usize = 0;
                while i < allowed.len()
                    invariant
                        0 <= i <= allowed@.len(),
                        message@ == start + method_names(allowed@.take(i as int)),
                    decreases allowed@.len() - i,
                {
                    let ghost before = message@;
                    assert(allowed@.take(i as int + 1).drop_last() =~= allowed@.take(i as int));
                    if i > 0 {
                        message.append(", ");
                    }
                    message.append(method_name_str(allowed[i]));
                    assert(message@ =~= start + method_names(allowed@.take(i as int + 1)));
                    i = i + 1;
                }
                assert(allowed@.take(allowed@.len() as int) =~= allowed@);
                message.append("]");
                ErrorEnvelope { code: "method_not_allowed", message }
            },
            OperationError::InvalidBody { message } => ErrorEnvelope {
                code: "invalid_body",
                message: message.clone(),
            },
            OperationError::MissingHeader { header } => {
                let mut message = String::from_str("missing required header ");
                message.append(*header);
                ErrorEnvelope { code: "missing_header", message }
            },
        }
    }
}

impl From<ApiError> for OperationError {
    fn from(error: ApiError) -> (r: Self) {
        OperationError::Api(error)
    }
}

impl vstd::std_specs::convert::FromSpecImpl<ApiError> for OperationError {
    open spec fn obeys_from_spec() -> bool {
        true
    }

    open spec fn from_spec(v: ApiError) -> Self {
        OperationError::Api(v)
    }
}

// ---------------------------------------------------------------------------
// The JSON scanner.
// ---------------------------------------------------------------------------

/// The first place at or after `i` where `pat` occurs in `b`, -1 if none.
pub open spec fn find_sub_from(b: Seq<u8>, pat: Seq<u8>, i: int) -> int
    decreases b.len() + 1 - i,
{
    if i < 0 || i + pat.len() > b.len() {
        -1
    } else if b.subrange(i, i + pat.len()) == pat {
        i
    } else {
        find_sub_from(b, pat, i + 1)
    }
}

pub open spec fn is_byte(c: u8) -> spec_fn(u8) -> bool {
    |x: u8| x == c
}

/// Where a JSON value that starts `v` ends: at the first `,` or `}` that
/// is outside strings and arrays, else at the end. `\` escapes inside
/// strings; brackets count array depth.
pub open spec fn value_end(v: Seq<u8>, i: int, in_string: bool, escaped: bool, depth: nat) -> int
    decreases v.len() - i,
{
    if i < 0 || i >= v.len() {
        v.len() as int
    } else {
        let c = v[i];
        if c == 92 && in_string {
            value_end(v, i + 1, in_string, !escaped, depth)
        } else if c == 34 && !escaped {
            value_end(v, i + 1, !in_string, escaped, depth)
        } else if c == 91 && !in_string {
            value_end(v, i + 1, in_string, escaped, depth + 1)
        } else if c == 93 && !in_string {
            value_end(v, i + 1, in_string, escaped, if depth > 0 {
                (depth - 1) as nat
            } else {
                0
            })
        } else if (c == 44 || c == 125) && !in_string && depth == 0 {
            i
        } else {
            value_end(v, i + 1, in_string, false, depth)
        }
    }
}

/// The JSON value that starts `v`, trimmed.
pub open spec fn read_json_value(v: Seq<u8>) -> Seq<u8> {
    trim(v.subrange(0, value_end(v, 0, false, false, 0)))
}

/// The value of a field of a JSON object body: the body trimmed must be
/// braced; the first occurrence of the quoted field name, then the first
/// `:` after it, then the value after that. Errors carry their message.
pub open spec fn json_field_value(body: Seq<u8>, field: Seq<char>) -> Result<Seq<u8>, Seq<char>> {
    let t = trim(body);
    let pat = seq![34u8] + text_bytes(field) + seq![34u8];
    if !(t.len() > 0 && t[0] == 123 && t.last() == 125) {
        Err("control request body must be a JSON object"@)
    } else if find_sub_from(t, pat, 0) < 0 {
        Err("missing field '"@ + field + "'"@)
    } else {
        let after = t.subrange(find_sub_from(t, pat, 0) + pat.len(), t.len() as int);
        let c = find_first(after, is_byte(58), after.len() as int);
        if c < 0 {
            Err("missing ':' after field '"@ + field + "'"@)
        } else {
            Ok(read_json_value(trim_start(after.subrange(c + 1, after.len() as int))))
        }
    }
}

/// A JSON unsigned integer: trimmed, not empty, not negative, as
/// `u64::from_str` reads it.
pub open spec fn json_u64(v: Seq<u8>) -> Option<u64> {
    let t = trim(v);
    if t.len() == 0 || t[0] == 45 {
        None
    } else {
        parse_u64(t)
    }
}

/// The parts of `v` between commas that are outside strings, each trimmed.
pub open spec fn split_top(v: Seq<u8>, i: int, start: int, in_string: bool, escaped: bool) -> Seq<
    Seq<u8>,
>
    decreases v.len() - i,
{
    if i < 0 || i >= v.len() {
        seq![trim(v.subrange(start, v.len() as int))]
    } else {
        let c = v[i];
        if c == 92 && in_string {
            split_top(v, i + 1, start, in_string, !escaped)
        } else if c == 34 && !escaped {
            split_top(v, i + 1, start, !in_string, escaped)
        } else if c == 44 && !in_string {
            seq![trim(v.subrange(start, i))] + split_top(v, i + 1, i + 1, in_string, escaped)
        } else {
            split_top(v, i + 1, start, in_string, false)
        }
    }
}

/// What a JSON escape stands for: `\"`, `\\`, `\/`, `\n`, `\r`, `\t`.
pub open spec fn escape_byte(e: u8) -> Option<u8> {
    if e == 34 || e == 92 || e == 47 {
        Some(e)
    } else if e == 110 {
        Some(10)
    } else if e == 114 {
        Some(13)
    } else if e == 116 {
        Some(9)
    } else {
        None
    }
}

/// The bytes of a JSON string's contents with its escapes resolved.
pub open spec fn unescape(s: Seq<u8>) -> Result<Seq<u8>, Seq<char>>
    decreases s.len(),
{
    if s.len() == 0 {
        Ok(Seq::empty())
    } else if s[0] == 92 {
        if s.len() < 2 {
            Err("JSON string escape is incomplete"@)
        } else {
            match escape_byte(s[1]) {
                None => Err("unsupported JSON string escape"@),
                Some(x) => match unescape(s.subrange(2, s.len() as int)) {
                    Ok(rest) => Ok(seq![x] + rest),
                    Err(m) => Err(m),
                },
            }
        }
    } else {
        match unescape(s.drop_first()) {
            Ok(rest) => Ok(seq![s[0]] + rest),
            Err(m) => Err(m),
        }
    }
}

/// A JSON string: trimmed, quoted at both ends (the opening quote is not
/// also the closing one), its contents unescaped.
pub open spec fn json_string(v: Seq<u8>) -> Result<Seq<u8>, Seq<char>> {
    let t = trim(v);
    if !(t.len() >= 2 && t[0] == 34 && t.last() == 34) {
        Err("keys must be JSON strings"@)
    } else {
        unescape(t.subrange(1, t.len() - 1))
    }
}

/// Every part read as a JSON string; the first error stops.
pub open spec fn json_strings(parts: Seq<Seq<u8>>) -> Result<Seq<Seq<u8>>, Seq<char>>
    decreases parts.len(),
{
    if parts.len() == 0 {
        Ok(Seq::empty())
    } else {
        match json_strings(parts.drop_last()) {
            Err(m) => Err(m),
            Ok(done) => match json_string(parts.last()) {
                Err(m) => Err(m),
                Ok(s) => Ok(done.push(s)),
            },
        }
    }
}

/// A JSON array of strings, bracketed; empty brackets are no strings.
pub open spec fn json_string_array(v: Seq<u8>) -> Result<Seq<Seq<u8>>, Seq<char>> {
    let t = trim(v);
    if !(t.len() > 0 && t[0] == 91 && t.last() == 93) {
        Err("keys must be a JSON string array"@)
    } else {
        let inner = trim(t.subrange(1, t.len() - 1));
        if inner.len() == 0 {
            Ok(Seq::empty())
        } else {
            json_strings(split_top(inner, 0, 0, false, false))
        }
    }
}

/// Every key percent-decoded; the first bad one is an error.
pub open spec fn decode_keys(keys: Seq<Seq<u8>>) -> Option<Seq<Seq<u8>>>
    decreases keys.len(),
{
    if keys.len() == 0 {
        Some(Seq::empty())
    } else {
        match decode_keys(keys.drop_last()) {
            None => None,
            Some(done) => match percent_decode(keys.last()) {
                None => None,
                Some(k) => Some(done.push(k)),
            },
        }
    }
}

/// A batch read body: UTF-8 JSON with a `keys` array of at least one
/// percent-encoded string.
pub open spec fn batch_keys_of(body: Seq<u8>) -> Result<Seq<Seq<u8>>, Seq<char>> {
    if !vstd::utf8::valid_utf8(body) {
        Err("control request body must be UTF-8 JSON"@)
    } else {
        match json_field_value(body, "keys"@) {
            Err(m) => Err(m),
            Ok(v) => match json_string_array(v) {
                Err(m) => Err(m),
                Ok(keys) => if keys.len() == 0 {
                    Err("batch get requires at least one key"@)
                } else {
                    match decode_keys(keys) {
                        None => Err("batch keys must use valid percent encoding"@),
                        Some(ks) => Ok(ks),
                    }
                },
            },
        }
    }
}

/// A lease request body: UTF-8 JSON with a positive integer `lease_ttl_ms`
/// and an optional integer `allow_stale_ms`.
pub open spec fn lease_body_of(body: Seq<u8>) -> Result<(u64, Option<u64>), Seq<char>> {
    if !vstd::utf8::valid_utf8(body) {
        Err("control request body must be UTF-8 JSON"@)
    } else {
        match json_field_value(body, "lease_ttl_ms"@) {
            Err(m) => Err(m),
            Ok(v) => match json_u64(v) {
                None => Err("lease_ttl_ms must be an integer"@),
                Some(ttl) => {
                    let stale: Result<Option<u64>, Seq<char>> = match json_field_value(
                        body,
                        "allow_stale_ms"@,
                    ) {
                        Ok(sv) => match json_u64(sv) {
                            None => Err("allow_stale_ms must be an integer"@),
                            Some(s) => Ok(Some(s)),
                        },
                        Err(m) => if m == "missing field 'allow_stale_ms'"@ {
                            Ok(None)
                        } else {
                            Err(m)
                        },
                    };
                    match stale {
                        Err(m) => Err(m),
                        Ok(s) => if ttl == 0 {
                            Err("lease_ttl_ms must be greater than zero"@)
                        } else {
                            Ok((ttl, s))
                        },
                    }
                },
            },
        }
    }
}

// ---------------------------------------------------------------------------
// The scanner, executed.
// ---------------------------------------------------------------------------

/// The first occurrence of `pat` in `b`.
fn find_sub(b: &[u8], pat: &[u8]) -> (r: Option<usize>)
    requires
        pat@.len() > 0,
    ensures
        match r {
            Some(i) => find_sub_from(b@, pat@, 0) == i as int,
            None => find_sub_from(b@, pat@, 0) == -1,
        },
{
    let mut i: usize = 0;
    while i <= b.len() && pat.len() <= b.len() - i
        invariant
            pat@.len() > 0,
            find_sub_from(b@, pat@, 0) == find_sub_from(b@, pat@, i as int),
        decreases b@.len() + 1 - i,
    {
        if crate::bytes::bytes_eq(slice_range(b, i, i + pat.len()), pat) {
            return Some(i);
        }
        i = i + 1;
    }
    None
}

/// The first `byte` in `b`.
fn find_byte(b: &[u8], byte: u8) -> (r: Option<usize>)
    ensures
        match r {
            Some(i) => find_first(b@, is_byte(byte), b@.len() as int) == i as int && i < b@.len(),
            None => find_first(b@, is_byte(byte), b@.len() as int) == -1,
        },
{
    let mut i: usize = 0;
    while i < b.len()
        invariant
            0 <= i <= b@.len(),
            forall|j: int| 0 <= j < i ==> !is_byte(byte)(#[trigger] b@[j]),
        decreases b@.len() - i,
    {
        if b[i] == byte {
            proof {
                lemma_find_first_at(b@, is_byte(byte), i as int);
            }
            return Some(i);
        }
        i = i + 1;
    }
    proof {
        lemma_find_first_absent(b@, is_byte(byte));
    }
    None
}

/// `b[from..to]` as a new vector.
fn copy_range(b: &[u8], from: usize, to: usize) -> (r: Vec<u8>)
    requires
        from <= to <= b@.len(),
    ensures
        r@ == b@.subrange(from as int, to as int),
{
    copy_bytes(slice_range(b, from, to))
}

/// The JSON value that starts `v`, trimmed.
fn read_json_value_exec(v: &[u8]) -> (r: Vec<u8>)
    ensures
        r@ == read_json_value(v@),
{
    let mut in_string = false;
    let mut escaped = false;
    let mut depth: usize = 0;
    let mut i: usize = 0;
    let mut end = v.len();
    while i < v.len()
        invariant_except_break
            end == v@.len(),
        invariant
            0 <= i <= v@.len(),
            depth <= i,
            value_end(v@, 0, false, false, 0) == value_end(v@, i as int, in_string, escaped, depth as nat),
        ensures
            value_end(v@, 0, false, false, 0) == end,
            end <= v@.len(),
        decreases v@.len() - i,
    {
        let c = v[i];
        if c == 92 && in_string {
            escaped = !escaped;
        } else if c == 34 && !escaped {
            in_string = !in_string;
        } else if c == 91 && !in_string {
            depth = depth + 1;
        } else if c == 93 && !in_string {
            depth = if depth > 0 {
                depth - 1
            } else {
                0
            };
        } else if (c == 44 || c == 125) && !in_string && depth == 0 {
            end = i;
            break;
        } else {
            escaped = false;
        }
        i = i + 1;
    }
    let (s, e) = trim_range(v, 0, end);
    copy_range(v, s, e)
}

/// An error with a message.
fn body_err<T>(message: String) -> (r: Result<T, OperationError>)
    ensures
        r matches Err(e) && e@ == (OperationErrorModel::InvalidBody { message: message@ }),
{
    Err(OperationError::InvalidBody { message })
}

/// `prefix` + `middle` + `suffix`.
fn join3(prefix: &str, middle: &str, suffix: &str) -> (r: String)
    ensures
        r@ == prefix@ + middle@ + suffix@,
{
    let mut t = String::from_str(prefix);
    t.append(middle);
    t.append(suffix);
    t
}

/// The value of a field of a JSON object body.
fn json_field_value_exec(body: &[u8], field: &str) -> (r: Result<Vec<u8>, String>)
    ensures
        match r {
            Ok(v) => json_field_value(body@, field@) == Ok::<Seq<u8>, Seq<char>>(v@),
            Err(m) => json_field_value(body@, field@) == Err::<Seq<u8>, Seq<char>>(m@),
        },
{
    let (ts, te) = trim_range(body, 0, body.len());
    proof {
        assert(body@.subrange(0, body@.len() as int) =~= body@);
    }
    let t = copy_range(body, ts, te);
    if !(t.len() > 0 && t[0] == 123 && t[t.len() - 1] == 125) {
        return Err(String::from_str("control request body must be a JSON object"));
    }
    let mut pat: Vec<u8> = Vec::new();
    pat.push(34);
    let fb = field.as_bytes();
    let mut k: usize = 0;
    while k < fb.len()
        invariant
            0 <= k <= fb@.len(),
            pat@ == seq![34u8] + fb@.subrange(0, k as int),
        decreases fb@.len() - k,
    {
        pat.push(fb[k]);
        assert(pat@ =~= seq![34u8] + fb@.subrange(0, k + 1));
        k = k + 1;
    }
    pat.push(34);
    assert(pat@ =~= seq![34u8] + text_bytes(field@) + seq![34u8]);
    let start = match find_sub(t.as_slice(), pat.as_slice()) {
        None => {
            return Err(join3("missing field '", field, "'"));
        },
        Some(i) => i,
    };
    proof {
        assert(start + pat@.len() <= t@.len()) by {
            assert(find_sub_from(t@, pat@, 0) >= 0);
            lemma_find_sub_bound(t@, pat@, 0);
        }
    }
    let after = copy_range(t.as_slice(), start + pat.len(), t.len());
    let colon = match find_byte(after.as_slice(), 58) {
        None => {
            return Err(join3("missing ':' after field '", field, "'"));
        },
        Some(c) => c,
    };
    let vs = trim_start_range(after.as_slice(), colon + 1, after.len());
    let rest = copy_range(after.as_slice(), vs, after.len());
    Ok(read_json_value_exec(rest.as_slice()))
}

proof fn lemma_find_sub_bound(b: Seq<u8>, pat: Seq<u8>, i: int)
    requires
        find_sub_from(b, pat, i) >= 0,
    ensures
        find_sub_from(b, pat, i) + pat.len() <= b.len(),
        find_sub_from(b, pat, i) >= i,
    decreases b.len() + 1 - i,
{
    if !(i < 0 || i + pat.len() > b.len()) && b.subrange(i, i + pat.len()) != pat {
        lemma_find_sub_bound(b, pat, i + 1);
    }
}

/// A JSON unsigned integer.
fn parse_json_u64(v: &[u8]) -> (r: Option<u64>)
    ensures
        r == json_u64(v@),
{
    let (s, e) = trim_range(v, 0, v.len());
    proof {
        assert(v@.subrange(0, v@.len() as int) =~= v@);
    }
    if s == e || v[s] == 45 {
        return None;
    }
    parse_u64_range(v, s, e)
}

/// The parts of `v` between commas outside strings, each trimmed.
fn split_top_level_commas(v: &[u8]) -> (r: Vec<Vec<u8>>)
    ensures
        r@.map_values(|p: Vec<u8>| p@) == split_top(v@, 0, 0, false, false),
{
    let mut parts: Vec<Vec<u8>> = Vec::new();
    let mut in_string = false;
    let mut escaped = false;
    let mut start: usize = 0;
    let mut i: usize = 0;
    assert(parts@.map_values(|p: Vec<u8>| p@) =~= Seq::<Seq<u8>>::empty());
    while i < v.len()
        invariant
            0 <= start <= i <= v@.len(),
            split_top(v@, 0, 0, false, false) == parts@.map_values(|p: Vec<u8>| p@) + split_top(
                v@,
                i as int,
                start as int,
                in_string,
                escaped,
            ),
        decreases v@.len() - i,
    {
        let c = v[i];
        if c == 92 && in_string {
            escaped = !escaped;
        } else if c == 34 && !escaped {
            in_string = !in_string;
        } else if c == 44 && !in_string {
            let (s, e) = trim_range(v, start, i);
            let part = copy_range(v, s, e);
            let ghost prev = parts@.map_values(|p: Vec<u8>| p@);
            parts.push(part);
            assert(parts@.map_values(|p: Vec<u8>| p@) =~= prev.push(part@));
            assert(prev + (seq![part@] + split_top(v@, i + 1, i + 1, in_string, escaped)) =~= prev.push(
                part@,
            ) + split_top(v@, i + 1, i + 1, in_string, escaped));
            start = i + 1;
        } else {
            escaped = false;
        }
        i = i + 1;
    }
    let (s, e) = trim_range(v, start, v.len());
    let part = copy_range(v, s, e);
    let ghost prev = parts@.map_values(|p: Vec<u8>| p@);
    parts.push(part);
    assert(parts@.map_values(|p: Vec<u8>| p@) =~= prev.push(part@));
    assert(prev + seq![part@] =~= prev.push(part@));
    parts
}

/// A JSON string's contents with escapes resolved.
fn unescape_exec(s: &[u8]) -> (r: Result<Vec<u8>, String>)
    ensures
        match r {
            Ok(v) => unescape(s@) == Ok::<Seq<u8>, Seq<char>>(v@),
            Err(m) => unescape(s@) == Err::<Seq<u8>, Seq<char>>(m@),
        },
{
    let mut out: Vec<u8> = Vec::new();
    let mut i: usize = 0;
    assert(s@.subrange(0, s@.len() as int) =~= s@);
    assert(out@ + Seq::<u8>::empty() =~= out@);
    while i < s.len()
        invariant
            0 <= i <= s@.len(),
            unescape(s@) == match unescape(s@.subrange(i as int, s@.len() as int)) {
                Ok(rest) => Ok::<Seq<u8>, Seq<char>>(out@ + rest),
                Err(m) => Err(m),
            },
        decreases s@.len() - i,
    {
        let ghost rest = s@.subrange(i as int, s@.len() as int);
        assert(rest[0] == s@[i as int]);
        if s[i] == 92 {
            if s.len() - i < 2 {
                return Err(String::from_str("JSON string escape is incomplete"));
            }
            assert(rest[1] == s@[i + 1]);
            let e = s[i + 1];
            let x: u8 = if e == 34 || e == 92 || e == 47 {
                e
            } else if e == 110 {
                10
            } else if e == 114 {
                13
            } else if e == 116 {
                9
            } else {
                return Err(String::from_str("unsupported JSON string escape"));
            };
            let ghost prev = out@;
            out.push(x);
            proof {
                assert(rest.subrange(2, rest.len() as int) =~= s@.subrange(i + 2, s@.len() as int));
                match unescape(s@.subrange(i + 2, s@.len() as int)) {
                    Ok(r2) => {
                        assert(prev + (seq![x] + r2) =~= out@ + r2);
                    },
                    Err(_) => {},
                }
            }
            i = i + 2;
        } else {
            let ghost prev = out@;
            out.push(s[i]);
            proof {
                assert(rest.drop_first() =~= s@.subrange(i + 1, s@.len() as int));
                match unescape(s@.subrange(i + 1, s@.len() as int)) {
                    Ok(r2) => {
                        assert(prev + (seq![s@[i as int]] + r2) =~= out@ + r2);
                    },
                    Err(_) => {},
                }
            }
            i = i + 1;
        }
    }
    assert(out@ + Seq::<u8>::empty() =~= out@);
    Ok(out)
}

/// A JSON string.
fn parse_json_string(v: &[u8]) -> (r: Result<Vec<u8>, String>)
    ensures
        match r {
            Ok(x) => json_string(v@) == Ok::<Seq<u8>, Seq<char>>(x@),
            Err(m) => json_string(v@) == Err::<Seq<u8>, Seq<char>>(m@),
        },
{
    let (s, e) = trim_range(v, 0, v.len());
    proof {
        assert(v@.subrange(0, v@.len() as int) =~= v@);
    }
    if !(e - s >= 2 && v[s] == 34 && v[e - 1] == 34) {
        return Err(String::from_str("keys must be JSON strings"));
    }
    let inner = copy_range(v, s + 1, e - 1);
    assert(inner@ =~= v@.subrange(s as int, e as int).subrange(1, e - s - 1));
    unescape_exec(inner.as_slice())
}

/// A JSON array of strings.
fn parse_json_string_array(v: &[u8]) -> (r: Result<Vec<Vec<u8>>, String>)
    ensures
        match r {
            Ok(x) => json_string_array(v@) == Ok::<Seq<Seq<u8>>, Seq<char>>(
                x@.map_values(|p: Vec<u8>| p@),
            ),
            Err(m) => json_string_array(v@) == Err::<Seq<Seq<u8>>, Seq<char>>(m@),
        },
{
    let (s, e) = trim_range(v, 0, v.len());
    proof {
        assert(v@.subrange(0, v@.len() as int) =~= v@);
    }
    if !(e > s && v[s] == 91 && v[e - 1] == 93) {
        return Err(String::from_str("keys must be a JSON string array"));
    }
    let (is, ie) = trim_range(v, s + 1, e - 1);
    assert(v@.subrange(s + 1, e - 1) =~= v@.subrange(s as int, e as int).subrange(1, e - s - 1));
    let inner = copy_range(v, is, ie);
    if inner.len() == 0 {
        let out: Vec<Vec<u8>> = Vec::new();
        assert(out@.map_values(|p: Vec<u8>| p@) =~= Seq::<Seq<u8>>::empty());
        return Ok(out);
    }
    let parts = split_top_level_commas(inner.as_slice());
    json_strings_exec(&parts)
}

/// Every part read as a JSON string.
fn json_strings_exec(parts: &Vec<Vec<u8>>) -> (r: Result<Vec<Vec<u8>>, String>)
    ensures
        match r {
            Ok(x) => json_strings(parts@.map_values(|p: Vec<u8>| p@)) == Ok::<Seq<Seq<u8>>, Seq<char>>(
                x@.map_values(|p: Vec<u8>| p@),
            ),
            Err(m) => json_strings(parts@.map_values(|p: Vec<u8>| p@)) == Err::<Seq<Seq<u8>>, Seq<char>>(m@),
        },
{
    let ghost pv = parts@.map_values(|p: Vec<u8>| p@);
    let mut out: Vec<Vec<u8>> = Vec::new();
    let mut k: usize = 0;
    assert(pv.take(0) =~= Seq::<Seq<u8>>::empty());
    assert(out@.map_values(|p: Vec<u8>| p@) =~= Seq::<Seq<u8>>::empty());
    while k < parts.len()
        invariant
            0 <= k <= parts@.len(),
            pv == parts@.map_values(|p: Vec<u8>| p@),
            json_strings(pv.take(k as int)) == Ok::<Seq<Seq<u8>>, Seq<char>>(
                out@.map_values(|p: Vec<u8>| p@),
            ),
        decreases parts@.len() - k,
    {
        assert(pv.take(k as int + 1).drop_last() =~= pv.take(k as int));
        assert(pv.take(k as int + 1).last() == parts@[k as int]@);
        match parse_json_string(parts[k].as_slice()) {
            Err(m) => {
                proof {
                    lemma_json_strings_err_sticks(pv, k as int + 1);
                }
                return Err(m);
            },
            Ok(x) => {
                let ghost prev = out@.map_values(|p: Vec<u8>| p@);
                out.push(x);
                assert(out@.map_values(|p: Vec<u8>| p@) =~= prev.push(x@));
            },
        }
        k = k + 1;
    }
    assert(pv.take(parts@.len() as int) =~= pv);
    Ok(out)
}

proof fn lemma_json_strings_err_sticks(ps: Seq<Seq<u8>>, k: int)
    requires
        0 <= k <= ps.len(),
        json_strings(ps.take(k)) is Err,
    ensures
        json_strings(ps) == json_strings(ps.take(k)),
    decreases ps.len() - k,
{
    if ps.len() == k {
        assert(ps.take(k) =~= ps);
    } else {
        assert(ps.drop_last().take(k) =~= ps.take(k));
        lemma_json_strings_err_sticks(ps.drop_last(), k);
    }
}

proof fn lemma_decode_keys_none_sticks(ks: Seq<Seq<u8>>, k: int)
    requires
        0 <= k <= ks.len(),
        decode_keys(ks.take(k)) is None,
    ensures
        decode_keys(ks) is None,
    decreases ks.len() - k,
{
    if ks.len() == k {
        assert(ks.take(k) =~= ks);
    } else {
        assert(ks.drop_last().take(k) =~= ks.take(k));
        lemma_decode_keys_none_sticks(ks.drop_last(), k);
    }
}

/// Reads the keys of a batch read body.
fn parse_batch_get_body(body: &[u8]) -> (r: Result<Vec<Vec<u8>>, OperationError>)
    ensures
        match r {
            Ok(ks) => batch_keys_of(body@) == Ok::<Seq<Seq<u8>>, Seq<char>>(
                ks@.map_values(|k: Vec<u8>| k@),
            ),
            Err(e) => batch_keys_of(body@) matches Err(m) && e@ == (
            OperationErrorModel::InvalidBody { message: m }),
        },
{
    if str_from_utf8(body).is_none() {
        return body_err(String::from_str("control request body must be UTF-8 JSON"));
    }
    let value = match json_field_value_exec(body, "keys") {
        Ok(v) => v,
        Err(m) => {
            return body_err(m);
        },
    };
    let keys = match parse_json_string_array(value.as_slice()) {
        Ok(k) => k,
        Err(m) => {
            return body_err(m);
        },
    };
    if keys.len() == 0 {
        return body_err(String::from_str("batch get requires at least one key"));
    }
    let ghost kv = keys@.map_values(|p: Vec<u8>| p@);
    let mut out: Vec<Vec<u8>> = Vec::new();
    let mut i: usize = 0;
    assert(kv.take(0) =~= Seq::<Seq<u8>>::empty());
    assert(out@.map_values(|k: Vec<u8>| k@) =~= Seq::<Seq<u8>>::empty());
    while i < keys.len()
        invariant
            0 <= i <= keys@.len(),
            kv == keys@.map_values(|p: Vec<u8>| p@),
            kv.len() > 0,
            vstd::utf8::valid_utf8(body@),
            json_field_value(body@, "keys"@) == Ok::<Seq<u8>, Seq<char>>(value@),
            json_string_array(value@) == Ok::<Seq<Seq<u8>>, Seq<char>>(kv),
            decode_keys(kv.take(i as int)) == Some(out@.map_values(|k: Vec<u8>| k@)),
        decreases keys@.len() - i,
    {
        assert(kv.take(i as int + 1).drop_last() =~= kv.take(i as int));
        assert(kv.take(i as int + 1).last() == keys@[i as int]@);
        let key = &keys[i];
        proof {
            assert(key@.subrange(0, key@.len() as int) =~= key@);
        }
        match crate::api::percent_decode_range(key.as_slice(), 0, key.len()) {
            None => {
                proof {
                    lemma_decode_keys_none_sticks(kv, i as int + 1);
                }
                return body_err(String::from_str("batch keys must use valid percent encoding"));
            },
            Some(k) => {
                let ghost prev = out@.map_values(|k: Vec<u8>| k@);
                out.push(k);
                assert(out@.map_values(|k: Vec<u8>| k@) =~= prev.push(k@));
            },
        }
        i = i + 1;
    }
    assert(kv.take(keys@.len() as int) =~= kv);
    Ok(out)
}

/// Reads a lease request body: the lease TTL and the stale allowance.
fn parse_start_lease_body(body: &[u8]) -> (r: Result<(u64, Option<u64>), OperationError>)
    ensures
        match r {
            Ok(v) => lease_body_of(body@) == Ok::<(u64, Option<u64>), Seq<char>>(v),
            Err(e) => lease_body_of(body@) matches Err(m) && e@ == (
            OperationErrorModel::InvalidBody { message: m }),
        },
{
    if str_from_utf8(body).is_none() {
        return body_err(String::from_str("control request body must be UTF-8 JSON"));
    }
    let ttl_value = match json_field_value_exec(body, "lease_ttl_ms") {
        Ok(v) => v,
        Err(m) => {
            return body_err(m);
        },
    };
    let lease_ttl_ms = match parse_json_u64(ttl_value.as_slice()) {
        Some(n) => n,
        None => {
            return body_err(String::from_str("lease_ttl_ms must be an integer"));
        },
    };
    let allow_stale_ms = match json_field_value_exec(body, "allow_stale_ms") {
        Ok(v) => match parse_json_u64(v.as_slice()) {
            Some(n) => Some(n),
            None => {
                return body_err(String::from_str("allow_stale_ms must be an integer"));
            },
        },
        Err(m) => {
            proof {
                reveal_strlit("missing field '");
                reveal_strlit("allow_stale_ms");
                reveal_strlit("'");
                reveal_strlit("missing field 'allow_stale_ms'");
            }
            if crate::bytes::text_eq(m.as_str(), "missing field 'allow_stale_ms'") {
                None
            } else {
                return body_err(m);
            }
        },
    };
    if lease_ttl_ms == 0 {
        return body_err(String::from_str("lease_ttl_ms must be greater than zero"));
    }
    Ok((lease_ttl_ms, allow_stale_ms))
}

// ---------------------------------------------------------------------------
// Operations.
// ---------------------------------------------------------------------------

/// `cachebox-lease-token`
pub open spec fn w_lease_token() -> Seq<u8> {
    seq![
        99u8, 97, 99, 104, 101, 98, 111, 120, 45, 108, 101, 97, 115, 101, 45, 116, 111, 107, 101,
        110,
    ]
}

/// The lease token header, its name matched without regard to ASCII case.
pub open spec fn is_lease_header() -> spec_fn((Seq<u8>, Seq<u8>)) -> bool {
    |h: (Seq<u8>, Seq<u8>)| lower(h.0) == w_lease_token()
}

/// The value of the first lease token header.
pub open spec fn lease_token_of(hs: Seq<(Seq<u8>, Seq<u8>)>) -> Option<Seq<u8>> {
    let i = find_first(hs, is_lease_header(), hs.len() as int);
    if i >= 0 {
        Some(hs[i].1)
    } else {
        None
    }
}

/// The operation a request asks for: the route must parse and take the
/// method; reads, deletes and tag invalidations take no body; writes take
/// the body as the value and their metadata from the headers; batch reads
/// and lease requests take a JSON body; lease completions need a non-empty
/// lease token header.
pub open spec fn operation_of(method: Method, path: Seq<char>, hs: Seq<(Seq<u8>, Seq<u8>)>, body: Seq<u8>) -> Result<
    OperationModel,
    OperationErrorModel,
> {
    let empty_body = "request body must be empty for this operation"@;
    match route_of(path) {
        Err(e) => Err(OperationErrorModel::Api(e)),
        Ok(route) => if !methods_of(route).contains(method) {
            Err(OperationErrorModel::MethodNotAllowed { method, allowed: methods_of(route) })
        } else {
            match route {
                RouteModel::Key { namespace, key } => if method == Method::Put {
                    match metadata_of(hs) {
                        Ok(metadata) => Ok(OperationModel::Put { namespace, key, value: body, metadata }),
                        Err(e) => Err(OperationErrorModel::Api(e)),
                    }
                } else if body.len() > 0 {
                    body_error(empty_body)
                } else if method == Method::Get {
                    Ok(OperationModel::Get { namespace, key })
                } else {
                    Ok(OperationModel::Delete { namespace, key })
                },
                RouteModel::BatchGet { namespace } => match batch_keys_of(body) {
                    Ok(keys) => Ok(OperationModel::BatchGet { namespace, keys }),
                    Err(m) => body_error(m),
                },
                RouteModel::InvalidateTag { namespace, tag } => if body.len() > 0 {
                    body_error(empty_body)
                } else {
                    Ok(OperationModel::InvalidateTag { namespace, tag })
                },
                RouteModel::StartLease { namespace, key } => match lease_body_of(body) {
                    Ok((lease_ttl_ms, allow_stale_ms)) => Ok(
                        OperationModel::StartLease { namespace, key, lease_ttl_ms, allow_stale_ms },
                    ),
                    Err(m) => body_error(m),
                },
                RouteModel::CompleteLease { namespace, key } => match lease_token_of(hs) {
                    Some(lease_token) => if lease_token.len() > 0 {
                        match metadata_of(hs) {
                            Ok(metadata) => Ok(
                                OperationModel::CompleteLease {
                                    namespace,
                                    key,
                                    lease_token,
                                    value: body,
                                    metadata,
                                },
                            ),
                            Err(e) => Err(OperationErrorModel::Api(e)),
                        }
                    } else {
                        Err(OperationErrorModel::MissingHeader { header: "Cachebox-Lease-Token"@ })
                    },
                    None => Err(OperationErrorModel::MissingHeader { header: "Cachebox-Lease-Token"@ }),
                },
                _ => body_error("health and metrics routes are not cache operations"@),
            }
        },
    }
}

pub open spec fn operation_result(r: Result<Operation, OperationError>) -> Result<
    OperationModel,
    OperationErrorModel,
> {
    match r {
        Ok(o) => Ok(o@),
        Err(e) => Err(e@),
    }
}

/// Refuses a non-empty body.
fn reject_body(body: &[u8]) -> (r: Result<(), OperationError>)
    ensures
        match r {
            Ok(_) => body@.len() == 0,
            Err(e) => body@.len() > 0 && e@ == (OperationErrorModel::InvalidBody {
                message: "request body must be empty for this operation"@,
            }),
        },
{
    if body.len() == 0 {
        Ok(())
    } else {
        Err(
            OperationError::InvalidBody {
                message: String::from_str("request body must be empty for this operation"),
            },
        )
    }
}

/// The value of the first lease token header.
fn find_header<'a>(headers: &'a [(&'a str, &'a str)]) -> (r: Option<&'a str>)
    ensures
        match r {
            Some(v) => lease_token_of(headers_view(headers@)) == Some(text_bytes(v@)),
            None => lease_token_of(headers_view(headers@)) is None,
        },
{
    let ghost hv = headers_view(headers@);
    let mut i: usize = 0;
    while i < headers.len()
        invariant
            0 <= i <= headers@.len(),
            hv == headers_view(headers@),
            forall|j: int| 0 <= j < i ==> !is_lease_header()(#[trigger] hv[j]),
        decreases headers@.len() - i,
    {
        let (name, value) = headers[i];
        assert(hv[i as int] == (text_bytes(name@), text_bytes(value@)));
        if lower_eq(
            name.as_bytes(),
            &[99u8, 97u8, 99u8, 104u8, 101u8, 98u8, 111u8, 120u8, 45u8, 108u8, 101u8, 97u8, 115u8, 101u8, 45u8, 116u8, 111u8, 107u8, 101u8, 110u8],
        ) {
            proof {
                lemma_find_first_at(hv, is_lease_header(), i as int);
            }
            return Some(value);
        }
        i = i + 1;
    }
    proof {
        lemma_find_first_absent(hv, is_lease_header());
    }
    None
}

fn method_allowed(allowed: &Vec<Method>, method: Method) -> (r: bool)
    ensures
        r == allowed@.contains(method),
{
    let mut i: usize = 0;
    while i < allowed.len()
        invariant
            0 <= i <= allowed@.len(),
            forall|j: int| 0 <= j < i ==> allowed@[j] != method,
        decreases allowed@.len() - i,
    {
        if allowed[i] == method {
            assert(allowed@[i as int] == method);
            return true;
        }
        i = i + 1;
    }
    false
}

fn api_err<T>(e: ApiError) -> (r: Result<T, OperationError>)
    ensures
        r matches Err(o) && o@ == OperationErrorModel::Api(e@),
{
    Err(OperationError::Api(e))
}

/// Maps a request to the cache operation it asks for.
pub fn parse_operation(request: RequestParts<'_>) -> (r: Result<Operation, OperationError>)
    ensures
        operation_result(r) == operation_of(
            request.method,
            request.path@,
            headers_view(request.headers@),
            request.body@,
        ),
{
    let method = request.method;
    let route = match parse_route(request.path) {
        Ok(route) => route,
        Err(e) => {
            return api_err(e);
        },
    };
    let allowed = allowed_methods(&route);
    if !method_allowed(&allowed, method) {
        return Err(OperationError::MethodNotAllowed { method, allowed });
    }
    match route {
        Route::Key { namespace, key } => {
            if method == Method::Put {
                match parse_put_metadata(request.headers.as_slice()) {
                    Ok(metadata) => Ok(Operation::Put { namespace, key, value: request.body, metadata }),
                    Err(e) => api_err(e),
                }
            } else {
                reject_body(request.body.as_slice())?;
                if method == Method::Get {
                    Ok(Operation::Get { namespace, key })
                } else {
                    Ok(Operation::Delete { namespace, key })
                }
            }
        },
        Route::BatchGet { namespace } => {
            let keys = parse_batch_get_body(request.body.as_slice())?;
            Ok(Operation::BatchGet { namespace, keys })
        },
        Route::InvalidateTag { namespace, tag } => {
            reject_body(request.body.as_slice())?;
            Ok(Operation::InvalidateTag { namespace, tag })
        },
        Route::StartLease { namespace, key } => {
            let (lease_ttl_ms, allow_stale_ms) = parse_start_lease_body(request.body.as_slice())?;
            Ok(Operation::StartLease { namespace, key, lease_ttl_ms, allow_stale_ms })
        },
        Route::CompleteLease { namespace, key } => {
            let token = match find_header(request.headers.as_slice()) {
                Some(v) => v,
                None => {
                    return Err(OperationError::MissingHeader { header: LEASE_TOKEN_HEADER });
                },
            };
            if token.as_bytes().len() == 0 {
                return Err(OperationError::MissingHeader { header: LEASE_TOKEN_HEADER });
            }
            proof {
                lemma_text_bytes(token@);
            }
            let lease_token = String::from_str(token);
            match parse_put_metadata(request.headers.as_slice()) {
                Ok(metadata) => Ok(
                    Operation::CompleteLease { namespace, key, lease_token, value: request.body, metadata },
                ),
                Err(e) => api_err(e),
            }
        },
        _ => Err(
            OperationError::InvalidBody {
                message: String::from_str("health and metrics routes are not cache operations"),
            },
        ),
    }
}

} // verus!
