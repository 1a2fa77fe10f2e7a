//! The HTTP API contract: routes, the write metadata carried in headers,
//! and the error envelopes. Parsing works on the UTF-8 bytes of paths and
//! header values.

use vstd::prelude::*;
use crate::bytes::{bytes_eq, lemma_text_bytes, text_bytes, text_eq};
use crate::names::{namespace_bytes_ok, tag_bytes_ok, valid_namespace, valid_tag, is_tag_byte, is_namespace_byte};
use crate::text::{
    all_ascii, lemma_ascii_valid, lemma_trim_valid, lower, lower_eq, parse_u64, parse_u64_range,
    slice_range, trim, trim_range, utf8_string,
};
use crate::seqs::{find_first, lemma_find_first, lemma_find_first_absent, lemma_find_first_at};

verus! {

pub const API_VERSION: &'static str = "v1";
pub const HEALTH_ROUTE: &'static str = "/healthz";
pub const METRICS_ROUTE: &'static str = "/metrics";

/// How a stored value declares its content.
#[derive(Debug, Clone, Copy, PartialEq, Eq, Structural)]
pub enum ContentType {
    OctetStream,
    Other,
}

/// A time to live in milliseconds.
#[derive(Debug, Clone, Copy, PartialEq, Eq, Structural)]
pub struct Ttl {
    pub milliseconds: u64,
}

#[derive(Debug, Clone, Copy, PartialEq, Eq, Structural)]
pub enum Method {
    Get,
    Put,
    Delete,
    Post,
}

#[derive(Debug, Clone, PartialEq, Eq)]
pub enum Route {
    Health,
    Metrics,
    Key { namespace: String, key: Vec<u8> },
    BatchGet { namespace: String },
    InvalidateTag { namespace: String, tag: Vec<u8> },
    StartLease { namespace: String, key: Vec<u8> },
    CompleteLease { namespace: String, key: Vec<u8> },
}

#[derive(Debug, Clone, PartialEq, Eq)]
pub struct PutMetadata {
    pub ttl: Option<Ttl>,
    pub stale_ttl: Option<Ttl>,
    pub tags: Vec<String>,
    pub cost: Option<u64>,
    pub content_type: ContentType,
}

#[derive(Debug, Clone, PartialEq, Eq)]
pub struct ErrorEnvelope {
    pub code: &'static str,
    pub message: String,
}

#[derive(Debug, Clone, Copy, PartialEq, Eq, Structural)]
pub enum StatusCode {
    Success,
    Created,
    NoContent,
    BadRequest,
    NotFound,
    MethodNotAllowed,
}

#[derive(Debug, Clone, PartialEq, Eq)]
pub enum ApiError {
    InvalidPath,
    InvalidNamespace,
    InvalidKeyEncoding,
    InvalidTagEncoding,
    InvalidTtl { header: &'static str, value: String },
    InvalidTags,
    InvalidCost { value: String },
}

// ---------------------------------------------------------------------------
// Models.
// ---------------------------------------------------------------------------

/// A route, names and keys taken by their bytes.
pub enum RouteModel {
    Health,
    Metrics,
    Key { namespace: Seq<u8>, key: Seq<u8> },
    BatchGet { namespace: Seq<u8> },
    InvalidateTag { namespace: Seq<u8>, tag: Seq<u8> },
    StartLease { namespace: Seq<u8>, key: Seq<u8> },
    CompleteLease { namespace: Seq<u8>, key: Seq<u8> },
}

impl View for Route {
    type V = RouteModel;

    open spec fn view(&self) -> RouteModel {
        match self {
            Route::Health => RouteModel::Health,
            Route::Metrics => RouteModel::Metrics,
            Route::Key { namespace, key } => RouteModel::Key {
                namespace: text_bytes(namespace@),
                key: key@,
            },
            Route::BatchGet { namespace } => RouteModel::BatchGet {
                namespace: text_bytes(namespace@),
            },
            Route::InvalidateTag { namespace, tag } => RouteModel::InvalidateTag {
                namespace: text_bytes(namespace@),
                tag: tag@,
            },
            Route::StartLease { namespace, key } => RouteModel::StartLease {
                namespace: text_bytes(namespace@),
                key: key@,
            },
            Route::CompleteLease { namespace, key } => RouteModel::CompleteLease {
                namespace: text_bytes(namespace@),
                key: key@,
            },
        }
    }
}

/// An API error, the offending text taken by its bytes.
pub enum ApiErrorModel {
    InvalidPath,
    InvalidNamespace,
    InvalidKeyEncoding,
    InvalidTagEncoding,
    InvalidTtl { header: Seq<char>, value: Seq<u8> },
    InvalidTags,
    InvalidCost { value: Seq<u8> },
}

impl View for ApiError {
    type V = ApiErrorModel;

    open spec fn view(&self) -> ApiErrorModel {
        match self {
            ApiError::InvalidPath => ApiErrorModel::InvalidPath,
            ApiError::InvalidNamespace => ApiErrorModel::InvalidNamespace,
            ApiError::InvalidKeyEncoding => ApiErrorModel::InvalidKeyEncoding,
            ApiError::InvalidTagEncoding => ApiErrorModel::InvalidTagEncoding,
            ApiError::InvalidTtl { header, value } => ApiErrorModel::InvalidTtl {
                header: header@,
                value: text_bytes(value@),
            },
            ApiError::InvalidTags => ApiErrorModel::InvalidTags,
            ApiError::InvalidCost { value } => ApiErrorModel::InvalidCost {
                value: text_bytes(value@),
            },
        }
    }
}

/// Write metadata, tags taken by their bytes.
pub struct MetadataModel {
    pub ttl: Option<Ttl>,
    pub stale_ttl: Option<Ttl>,
    pub tags: Seq<Seq<u8>>,
    pub cost: Option<u64>,
    pub content_type: ContentType,
}

impl View for PutMetadata {
    type V = MetadataModel;

    open spec fn view(&self) -> MetadataModel {
        MetadataModel {
            ttl: self.ttl,
            stale_ttl: self.stale_ttl,
            tags: self.tags@.map_values(|t: String| text_bytes(t@)),
            cost: self.cost,
            content_type: self.content_type,
        }
    }
}

pub open spec fn route_result(r: Result<Route, ApiError>) -> Result<RouteModel, ApiErrorModel> {
    match r {
        Ok(v) => Ok(v@),
        Err(e) => Err(e@),
    }
}

pub open spec fn metadata_result(r: Result<PutMetadata, ApiError>) -> Result<MetadataModel, ApiErrorModel> {
    match r {
        Ok(v) => Ok(v@),
        Err(e) => Err(e@),
    }
}

// ---------------------------------------------------------------------------
// Words of the routes and headers, as ASCII bytes.
// ---------------------------------------------------------------------------

/// `v1`
pub open spec fn w_v1() -> Seq<u8> {
    seq![118u8, 49]
}

/// `namespaces`
pub open spec fn w_namespaces() -> Seq<u8> {
    seq![110u8, 97, 109, 101, 115, 112, 97, 99, 101, 115]
}

/// `keys`
pub open spec fn w_keys() -> Seq<u8> {
    seq![107u8, 101, 121, 115]
}

/// `batch`
pub open spec fn w_batch() -> Seq<u8> {
    seq![98u8, 97, 116, 99, 104]
}

/// `get`
pub open spec fn w_get() -> Seq<u8> {
    seq![103u8, 101, 116]
}

/// `tags`
pub open spec fn w_tags() -> Seq<u8> {
    seq![116u8, 97, 103, 115]
}

/// `invalidate`
pub open spec fn w_invalidate() -> Seq<u8> {
    seq![105u8, 110, 118, 97, 108, 105, 100, 97, 116, 101]
}

/// `leases`
pub open spec fn w_leases() -> Seq<u8> {
    seq![108u8, 101, 97, 115, 101, 115]
}

/// `complete`
pub open spec fn w_complete() -> Seq<u8> {
    seq![99u8, 111, 109, 112, 108, 101, 116, 101]
}

/// `cachebox-ttl`
pub open spec fn w_ttl_header() -> Seq<u8> {
    seq![99u8, 97, 99, 104, 101, 98, 111, 120, 45, 116, 116, 108]
}

/// `cachebox-stale-ttl`
pub open spec fn w_stale_ttl_header() -> Seq<u8> {
    seq![99u8, 97, 99, 104, 101, 98, 111, 120, 45, 115, 116, 97, 108, 101, 45, 116, 116, 108]
}

/// `cachebox-tags`
pub open spec fn w_tags_header() -> Seq<u8> {
    seq![99u8, 97, 99, 104, 101, 98, 111, 120, 45, 116, 97, 103, 115]
}

/// `cachebox-cost`
pub open spec fn w_cost_header() -> Seq<u8> {
    seq![99u8, 97, 99, 104, 101, 98, 111, 120, 45, 99, 111, 115, 116]
}

/// `content-type`
pub open spec fn w_content_type() -> Seq<u8> {
    seq![99u8, 111, 110, 116, 101, 110, 116, 45, 116, 121, 112, 101]
}

/// `application/octet-stream`
pub open spec fn w_octet_stream() -> Seq<u8> {
    seq![
        97u8, 112, 112, 108, 105, 99, 97, 116, 105, 111, 110, 47, 111, 99, 116, 101, 116, 45,
        115, 116, 114, 101, 97, 109,
    ]
}

// ---------------------------------------------------------------------------
// Paths.
// ---------------------------------------------------------------------------

/// The segments of a path: the non-empty runs of bytes between `/`s, with
/// `cur` the run read so far.
pub open spec fn segs_from(b: Seq<u8>, cur: Seq<u8>) -> Seq<Seq<u8>>
    decreases b.len(),
{
    if b.len() == 0 {
        if cur.len() > 0 {
            seq![cur]
        } else {
            Seq::empty()
        }
    } else if b[0] == 47 {
        (if cur.len() > 0 {
            seq![cur]
        } else {
            Seq::empty()
        }) + segs_from(b.drop_first(), Seq::empty())
    } else {
        segs_from(b.drop_first(), cur.push(b[0]))
    }
}

/// The segments of a path: leading and trailing `/` dropped, split at `/`,
/// empty segments dropped.
pub open spec fn segments(b: Seq<u8>) -> Seq<Seq<u8>> {
    segs_from(b, Seq::empty())
}

/// The value of an ASCII hexadecimal digit.
pub open spec fn hex_value(c: u8) -> Option<u8> {
    if 48 <= c <= 57 {
        Some((c - 48) as u8)
    } else if 97 <= c <= 102 {
        Some((c - 97 + 10) as u8)
    } else if 65 <= c <= 70 {
        Some((c - 65 + 10) as u8)
    } else {
        None
    }
}

/// Percent-decoding: `%` and two hexadecimal digits stand for one byte;
/// other bytes stand for themselves. A `%` without two hexadecimal digits
/// after it is an error.
pub open spec fn percent_decode(b: Seq<u8>) -> Option<Seq<u8>>
    decreases b.len(),
{
    if b.len() == 0 {
        Some(Seq::empty())
    } else if b[0] == 37 {
        if b.len() < 3 || hex_value(b[1]) is None || hex_value(b[2]) is None {
            None
        } else {
            match percent_decode(b.subrange(3, b.len() as int)) {
                Some(r) => Some(
                    seq![(hex_value(b[1])->0 * 16 + hex_value(b[2])->0) as u8] + r,
                ),
                None => None,
            }
        }
    } else {
        match percent_decode(b.drop_first()) {
            Some(r) => Some(seq![b[0]] + r),
            None => None,
        }
    }
}

/// A namespace segment, validated.
pub open spec fn namespace_of(seg: Seq<u8>) -> Result<Seq<u8>, ApiErrorModel> {
    if valid_namespace(seg) {
        Ok(seg)
    } else {
        Err(ApiErrorModel::InvalidNamespace)
    }
}

/// A namespace and a percent-encoded key.
pub open spec fn keyed(seg_ns: Seq<u8>, seg_key: Seq<u8>, lease: int) -> Result<RouteModel, ApiErrorModel> {
    match namespace_of(seg_ns) {
        Err(e) => Err(e),
        Ok(namespace) => match percent_decode(seg_key) {
            None => Err(ApiErrorModel::InvalidKeyEncoding),
            Some(key) => Ok(
                if lease == 0 {
                    RouteModel::Key { namespace, key }
                } else if lease == 1 {
                    RouteModel::StartLease { namespace, key }
                } else {
                    RouteModel::CompleteLease { namespace, key }
                },
            ),
        },
    }
}

/// The route a path names: `/healthz`, `/metrics`, or under
/// `/v1/namespaces/{namespace}/`: `keys/{key}`, `batch/get`,
/// `tags/{tag}/invalidate`, `leases/{key}`, `leases/{key}/complete`.
/// Anything else is an invalid path.
pub open spec fn route_of(path: Seq<char>) -> Result<RouteModel, ApiErrorModel> {
    let s = segments(text_bytes(path));
    if path == "/healthz"@ {
        Ok(RouteModel::Health)
    } else if path == "/metrics"@ {
        Ok(RouteModel::Metrics)
    } else if !((s.len() == 5 || s.len() == 6) && s[0] == w_v1() && s[1] == w_namespaces()) {
        Err(ApiErrorModel::InvalidPath)
    } else if s.len() == 5 && s[3] == w_keys() {
        keyed(s[2], s[4], 0)
    } else if s.len() == 5 && s[3] == w_batch() && s[4] == w_get() {
        match namespace_of(s[2]) {
            Err(e) => Err(e),
            Ok(namespace) => Ok(RouteModel::BatchGet { namespace }),
        }
    } else if s.len() == 6 && s[3] == w_tags() && s[5] == w_invalidate() {
        match namespace_of(s[2]) {
            Err(e) => Err(e),
            Ok(namespace) => match percent_decode(s[4]) {
                None => Err(ApiErrorModel::InvalidTagEncoding),
                Some(tag) => Ok(RouteModel::InvalidateTag { namespace, tag }),
            },
        }
    } else if s.len() == 5 && s[3] == w_leases() {
        keyed(s[2], s[4], 1)
    } else if s.len() == 6 && s[3] == w_leases() && s[5] == w_complete() {
        keyed(s[2], s[4], 2)
    } else {
        Err(ApiErrorModel::InvalidPath)
    }
}

/// The byte ranges of the segments of `b`.
fn split_path(b: &[u8]) -> (r: Vec<(usize, usize)>)
    ensures
        r@.len() == segments(b@).len(),
        forall|i: int|
            0 <= i < r@.len() ==> (#[trigger] r@[i]).0 <= r@[i].1 <= b@.len() && b@.subrange(
                r@[i].0 as int,
                r@[i].1 as int,
            ) == segments(b@)[i],
{
    let mut out: Vec<(usize, usize)> = Vec::new();
    let ghost mut done: Seq<Seq<u8>> = Seq::empty();
    let mut start: usize = 0;
    let mut i: usize = 0;
    assert(b@.subrange(0, 0) =~= Seq::<u8>::empty());
    assert(b@.subrange(0, b@.len() as int) =~= b@);
    while i < b.len()
        invariant
            0 <= start <= i <= b@.len(),
            out@.len() == done.len(),
            forall|k: int|
                0 <= k < out@.len() ==> (#[trigger] out@[k]).0 <= out@[k].1 <= b@.len()
                    && b@.subrange(out@[k].0 as int, out@[k].1 as int) == done[k],
            segments(b@) == done + segs_from(
                b@.subrange(i as int, b@.len() as int),
                b@.subrange(start as int, i as int),
            ),
        decreases b@.len() - i,
    {
        let ghost rest = b@.subrange(i as int, b@.len() as int);
        let ghost cur = b@.subrange(start as int, i as int);
        assert(rest[0] == b@[i as int]);
        assert(rest.drop_first() =~= b@.subrange(i + 1, b@.len() as int));
        if b[i] == 47 {
            if start < i {
                out.push((start, i));
                proof {
                    done = done.push(cur);
                }
            }
            proof {
                assert(b@.subrange(i + 1, i + 1) =~= Seq::<u8>::empty());
                if start < i {
                    assert(segs_from(rest, cur) == seq![cur] + segs_from(rest.drop_first(), Seq::empty()));
                    assert(done.drop_last() + seq![cur] =~= done);
                } else {
                    assert(segs_from(rest, cur) == Seq::<Seq<u8>>::empty() + segs_from(rest.drop_first(), Seq::empty()));
                }
            }
            start = i + 1;
        } else {
            assert(cur.push(b@[i as int]) =~= b@.subrange(start as int, i + 1));
        }
        i = i + 1;
    }
    if start < i {
        out.push((start, i));
        proof {
            let cur = b@.subrange(start as int, i as int);
            assert(b@.subrange(i as int, b@.len() as int) =~= Seq::<u8>::empty());
            done = done.push(cur);
        }
    }
    proof {
        assert(b@.subrange(i as int, b@.len() as int) =~= Seq::<u8>::empty());
        if start >= i {
            assert(done + Seq::<Seq<u8>>::empty() =~= done);
        } else {
            assert(done.drop_last() + seq![done.last()] =~= done);
        }
    }
    out
}

/// The value of an ASCII hexadecimal digit.
fn hex_digit(c: u8) -> (r: Option<u8>)
    ensures
        r == hex_value(c),
{
    if 48 <= c && c <= 57 {
        Some(c - 48)
    } else if 97 <= c && c <= 102 {
        Some(c - 97 + 10)
    } else if 65 <= c && c <= 70 {
        Some(c - 65 + 10)
    } else {
        None
    }
}

/// Percent-decodes `b[from..to]`.
pub(crate) fn percent_decode_range(b: &[u8], from: usize, to: usize) -> (r: Option<Vec<u8>>)
    requires
        from <= to <= b@.len(),
    ensures
        match r {
            Some(v) => percent_decode(b@.subrange(from as int, to as int)) == Some(v@),
            None => percent_decode(b@.subrange(from as int, to as int)) is None,
        },
{
    let ghost whole = b@.subrange(from as int, to as int);
    let mut out: Vec<u8> = Vec::new();
    let mut i = from;
    assert(whole =~= b@.subrange(i as int, to as int));
    assert(out@ + Seq::<u8>::empty() =~= out@);
    while i < to
        invariant
            from <= i <= to,
            to <= b@.len(),
            whole == b@.subrange(from as int, to as int),
            percent_decode(whole) == match percent_decode(b@.subrange(i as int, to as int)) {
                Some(rest) => Some(out@ + rest),
                None => None,
            },
        decreases to - i,
    {
        let ghost rest = b@.subrange(i as int, to as int);
        assert(rest[0] == b@[i as int]);
        if b[i] == 37 {
            if to - i < 3 {
                return None;
            }
            assert(rest[1] == b@[i + 1] && rest[2] == b@[i + 2]);
            let high = match hex_digit(b[i + 1]) {
                Some(h) => h,
                None => {
                    return None;
                },
            };
            let low = match hex_digit(b[i + 2]) {
                Some(l) => l,
                None => {
                    return None;
                },
            };
            let byte = (high << 4) | low;
            assert(byte == high * 16 + low) by (bit_vector)
                requires
                    high < 16,
                    low < 16,
                    byte == (high << 4) | low,
            ;
            let ghost prev = out@;
            out.push(byte);
            proof {
                assert(rest.subrange(3, rest.len() as int) =~= b@.subrange(i + 3, to as int));
                match percent_decode(b@.subrange(i + 3, to as int)) {
                    Some(r2) => {
                        assert(prev + (seq![byte] + r2) =~= out@ + r2);
                    },
                    None => {},
                }
            }
            i = i + 3;
        } else {
            let ghost prev = out@;
            out.push(b[i]);
            proof {
                assert(rest.drop_first() =~= b@.subrange(i + 1, to as int));
                match percent_decode(b@.subrange(i + 1, to as int)) {
                    Some(r2) => {
                        assert(prev + (seq![b@[i as int]] + r2) =~= out@ + r2);
                    },
                    None => {},
                }
            }
            i = i + 1;
        }
    }
    assert(out@ + Seq::<u8>::empty() =~= out@);
    Some(out)
}

/// Whether `b[from..to]` is `word`.
fn range_is(b: &[u8], from: usize, to: usize, word: &[u8]) -> (r: bool)
    requires
        from <= to <= b@.len(),
    ensures
        r == (b@.subrange(from as int, to as int) == word@),
{
    bytes_eq(slice_range(b, from, to), word)
}

/// A validated namespace segment as a string.
fn namespace_string(b: &[u8], from: usize, to: usize) -> (r: Result<String, ApiError>)
    requires
        from <= to <= b@.len(),
    ensures
        match r {
            Ok(s) => namespace_of(b@.subrange(from as int, to as int)) == Ok::<Seq<u8>, ApiErrorModel>(
                text_bytes(s@),
            ),
            Err(e) => namespace_of(b@.subrange(from as int, to as int)) == Err::<Seq<u8>, ApiErrorModel>(
                e@,
            ),
        },
{
    let ghost seg = b@.subrange(from as int, to as int);
    if !namespace_bytes_ok(slice_range(b, from, to)) {
        return Err(ApiError::InvalidNamespace);
    }
    proof {
        assert forall|i: int| 0 <= i < seg.len() implies #[trigger] seg[i] <= 0x7f by {
            assert(is_namespace_byte(seg[i]));
        }
        lemma_ascii_valid(seg);
    }
    Ok(utf8_string(b, from, to))
}

/// Parses a request path into a route.
pub fn parse_route(path: &str) -> (r: Result<Route, ApiError>)
    ensures
        route_result(r) == route_of(path@),
{
    if text_eq(path, HEALTH_ROUTE) {
        return Ok(Route::Health);
    }
    if text_eq(path, METRICS_ROUTE) {
        return Ok(Route::Metrics);
    }
    let b = path.as_bytes();
    let ghost s = segments(b@);
    let parts = split_path(b);
    let n = parts.len();
    if n != 5 && n != 6 {
        return Err(ApiError::InvalidPath);
    }
    let v = parts[0];
    let ns_seg = parts[1];
    let ns = parts[2];
    let kind = parts[3];
    let item = parts[4];
    assert(parts@[0] == v && parts@[1] == ns_seg && parts@[2] == ns && parts@[3] == kind && parts@[4] == item);
    if !range_is(b, v.0, v.1, &[118u8, 49u8]) || !range_is(
        b,
        ns_seg.0,
        ns_seg.1,
        &[110u8, 97u8, 109u8, 101u8, 115u8, 112u8, 97u8, 99u8, 101u8, 115u8],
    ) {
        return Err(ApiError::InvalidPath);
    }
    if n == 5 && range_is(b, kind.0, kind.1, &[107u8, 101u8, 121u8, 115u8]) {
        let namespace = namespace_string(b, ns.0, ns.1)?;
        return match percent_decode_range(b, item.0, item.1) {
            Some(key) => Ok(Route::Key { namespace, key }),
            None => Err(ApiError::InvalidKeyEncoding),
        };
    }
    if n == 5 && range_is(b, kind.0, kind.1, &[98u8, 97u8, 116u8, 99u8, 104u8]) && range_is(
        b,
        item.0,
        item.1,
        &[103u8, 101u8, 116u8],
    ) {
        let namespace = namespace_string(b, ns.0, ns.1)?;
        return Ok(Route::BatchGet { namespace });
    }
    if n == 6 {
        let last = parts[5];
        assert(parts@[5] == last);
        if range_is(b, kind.0, kind.1, &[116u8, 97u8, 103u8, 115u8]) && range_is(
            b,
            last.0,
            last.1,
            &[105u8, 110u8, 118u8, 97u8, 108u8, 105u8, 100u8, 97u8, 116u8, 101u8],
        ) {
            let namespace = namespace_string(b, ns.0, ns.1)?;
            return match percent_decode_range(b, item.0, item.1) {
                Some(tag) => Ok(Route::InvalidateTag { namespace, tag }),
                None => Err(ApiError::InvalidTagEncoding),
            };
        }
        if range_is(b, kind.0, kind.1, &[108u8, 101u8, 97u8, 115u8, 101u8, 115u8]) && range_is(
            b,
            last.0,
            last.1,
            &[99u8, 111u8, 109u8, 112u8, 108u8, 101u8, 116u8, 101u8],
        ) {
            let namespace = namespace_string(b, ns.0, ns.1)?;
            return match percent_decode_range(b, item.0, item.1) {
                Some(key) => Ok(Route::CompleteLease { namespace, key }),
                None => Err(ApiError::InvalidKeyEncoding),
            };
        }
        return Err(ApiError::InvalidPath);
    }
    if range_is(b, kind.0, kind.1, &[108u8, 101u8, 97u8, 115u8, 101u8, 115u8]) {
        let namespace = namespace_string(b, ns.0, ns.1)?;
        return match percent_decode_range(b, item.0, item.1) {
            Some(key) => Ok(Route::StartLease { namespace, key }),
            None => Err(ApiError::InvalidKeyEncoding),
        };
    }
    Err(ApiError::InvalidPath)
}


// ---------------------------------------------------------------------------
// Methods and errors.
// ---------------------------------------------------------------------------

/// The methods a route accepts.
pub open spec fn methods_of(r: RouteModel) -> Seq<Method> {
    match r {
        RouteModel::Health | RouteModel::Metrics => seq![Method::Get],
        RouteModel::Key { .. } => seq![Method::Get, Method::Put, Method::Delete],
        RouteModel::CompleteLease { .. } => seq![Method::Put],
        _ => seq![Method::Post],
    }
}

/// The methods a route accepts.
pub fn allowed_methods(route: &Route) -> (r: Vec<Method>)
    ensures
        r@ == methods_of(route@),
{
    match route {
        Route::Health | Route::Metrics => vec![Method::Get],
        Route::Key { .. } => vec![Method::Get, Method::Put, Method::Delete],
        Route::CompleteLease { .. } => vec![Method::Put],
        _ => vec![Method::Post],
    }
}

/// The code of an error's envelope.
pub open spec fn error_code(e: ApiErrorModel) -> Seq<char> {
    match e {
        ApiErrorModel::InvalidPath => "invalid_path"@,
        ApiErrorModel::InvalidNamespace => "invalid_namespace"@,
        ApiErrorModel::InvalidKeyEncoding => "invalid_key_encoding"@,
        ApiErrorModel::InvalidTagEncoding => "invalid_tag_encoding"@,
        ApiErrorModel::InvalidTtl { .. } => "invalid_ttl"@,
        ApiErrorModel::InvalidTags => "invalid_tags"@,
        ApiErrorModel::InvalidCost { .. } => "invalid_cost"@,
    }
}

/// The message of an error's envelope.
pub open spec fn error_message(e: ApiError) -> Seq<char> {
    match e {
        ApiError::InvalidPath => "request path is not a supported Cachebox route"@,
        ApiError::InvalidNamespace => "namespace must contain only ASCII letters, numbers, '-', and '_'"@,
        ApiError::InvalidKeyEncoding => "key must use valid percent encoding"@,
        ApiError::InvalidTagEncoding => "tag must use valid percent encoding"@,
        ApiError::InvalidTtl { header, value } => header@ + " has invalid TTL value '"@ + value@
            + "'"@,
        ApiError::InvalidTags => "tags must be comma-separated non-empty ASCII values"@,
        ApiError::InvalidCost { value } => "Cachebox-Cost has invalid value '"@ + value@ + "'"@,
    }
}

impl ApiError {
    /// Every API error is a bad request.
    pub fn status_code(&self) -> (r: StatusCode)
        ensures
            r == StatusCode::BadRequest,
    {
        StatusCode::BadRequest
    }

    /// The error's code and human-readable message.
    pub fn envelope(&self) -> (r: ErrorEnvelope)
        ensures
            r.code@ == error_code(self@),
            r.message@ == error_message(*self),
    {
        match self {
            ApiError::InvalidPath => ErrorEnvelope {
                code: "invalid_path",
                message: String::from_str("request path is not a supported Cachebox route"),
            },
            ApiError::InvalidNamespace => ErrorEnvelope {
                code: "invalid_namespace",
                message: String::from_str(
                    "namespace must contain only ASCII letters, numbers, '-', and '_'",
                ),
            },
            ApiError::InvalidKeyEncoding => ErrorEnvelope {
                code: "invalid_key_encoding",
                message: String::from_str("key must use valid percent encoding"),
            },
            ApiError::InvalidTagEncoding => ErrorEnvelope {
                code: "invalid_tag_encoding",
                message: String::from_str("tag must use valid percent encoding"),
            },
            ApiError::InvalidTtl { header, value } => {
                let mut message = String::from_str(*header);
                message.append(" has invalid TTL value '");
                message.append(value.as_str());
                message.append("'");
                ErrorEnvelope { code: "invalid_ttl", message }
            },
            ApiError::InvalidTags => ErrorEnvelope {
                code: "invalid_tags",
                message: String::from_str("tags must be comma-separated non-empty ASCII values"),
            },
            ApiError::InvalidCost { value } => {
                let mut message = String::from_str("Cachebox-Cost has invalid value '");
                message.append(value.as_str());
                message.append("'");
                ErrorEnvelope { code: "invalid_cost", message }
            },
        }
    }
}

// ---------------------------------------------------------------------------
// Write metadata.
// ---------------------------------------------------------------------------

/// A TTL's number and unit: `ms`, `s`, `m`, `h`, or seconds when there is
/// no unit; the unit in milliseconds.
pub open spec fn ttl_unit(t: Seq<u8>) -> (Seq<u8>, nat) {
    let n = t.len() as int;
    if n >= 2 && t[n - 2] == 109 && t[n - 1] == 115 {
        (t.subrange(0, n - 2), 1)
    } else if n >= 1 && t[n - 1] == 115 {
        (t.subrange(0, n - 1), 1000)
    } else if n >= 1 && t[n - 1] == 109 {
        (t.subrange(0, n - 1), 60000)
    } else if n >= 1 && t[n - 1] == 104 {
        (t.subrange(0, n - 1), 3600000)
    } else {
        (t, 1000)
    }
}

/// A TTL header value: trimmed, not empty, not negative, a number with an
/// optional unit, positive and within `u64` milliseconds. The error names
/// the header and carries the trimmed value.
pub open spec fn ttl_of(header: Seq<char>, value: Seq<u8>) -> Result<Ttl, ApiErrorModel> {
    let t = trim(value);
    let err = Err(ApiErrorModel::InvalidTtl { header, value: t });
    if t.len() == 0 || t[0] == 45 {
        err
    } else {
        match parse_u64(ttl_unit(t).0) {
            None => err,
            Some(a) => if a * ttl_unit(t).1 > u64::MAX || a * ttl_unit(t).1 == 0 {
                err
            } else {
                Ok(Ttl { milliseconds: (a * ttl_unit(t).1) as u64 })
            },
        }
    }
}

/// The pieces of `b` between commas, with `cur` the piece read so far.
pub open spec fn pieces_from(b: Seq<u8>, cur: Seq<u8>) -> Seq<Seq<u8>>
    decreases b.len(),
{
    if b.len() == 0 {
        seq![cur]
    } else if b[0] == 44 {
        seq![cur] + pieces_from(b.drop_first(), Seq::empty())
    } else {
        pieces_from(b.drop_first(), cur.push(b[0]))
    }
}

/// A tags header value: comma-separated, each tag trimmed and made of tag
/// bytes only, none empty.
pub open spec fn tags_of(b: Seq<u8>) -> Result<Seq<Seq<u8>>, ApiErrorModel> {
    let ps = pieces_from(b, Seq::empty());
    if forall|i: int| 0 <= i < ps.len() ==> valid_tag(#[trigger] trim(ps[i])) {
        Ok(ps.map_values(|p: Seq<u8>| trim(p)))
    } else {
        Err(ApiErrorModel::InvalidTags)
    }
}

/// Metadata before any header: no TTLs, no tags, no cost, octet stream.
pub open spec fn default_metadata() -> MetadataModel {
    MetadataModel {
        ttl: None,
        stale_ttl: None,
        tags: Seq::empty(),
        cost: None,
        content_type: ContentType::OctetStream,
    }
}

/// One header applied to the metadata; header names are matched without
/// regard to ASCII case, other headers are ignored.
pub open spec fn apply_header(m: MetadataModel, name: Seq<u8>, value: Seq<u8>) -> Result<
    MetadataModel,
    ApiErrorModel,
> {
    let n = lower(name);
    if n == w_ttl_header() {
        match ttl_of("Cachebox-TTL"@, value) {
            Ok(t) => Ok(MetadataModel { ttl: Some(t), ..m }),
            Err(e) => Err(e),
        }
    } else if n == w_stale_ttl_header() {
        match ttl_of("Cachebox-Stale-TTL"@, value) {
            Ok(t) => Ok(MetadataModel { stale_ttl: Some(t), ..m }),
            Err(e) => Err(e),
        }
    } else if n == w_tags_header() {
        match tags_of(value) {
            Ok(ts) => Ok(MetadataModel { tags: ts, ..m }),
            Err(e) => Err(e),
        }
    } else if n == w_cost_header() {
        match parse_u64(value) {
            Some(c) => Ok(MetadataModel { cost: Some(c), ..m }),
            None => Err(ApiErrorModel::InvalidCost { value }),
        }
    } else if n == w_content_type() {
        Ok(
            MetadataModel {
                content_type: if lower(value) == w_octet_stream() {
                    ContentType::OctetStream
                } else {
                    ContentType::Other
                },
                ..m
            },
        )
    } else {
        Ok(m)
    }
}

/// The headers applied in order; the first error stops.
pub open spec fn metadata_of(hs: Seq<(Seq<u8>, Seq<u8>)>) -> Result<MetadataModel, ApiErrorModel>
    decreases hs.len(),
{
    if hs.len() == 0 {
        Ok(default_metadata())
    } else {
        match metadata_of(hs.drop_last()) {
            Err(e) => Err(e),
            Ok(m) => apply_header(m, hs.last().0, hs.last().1),
        }
    }
}

/// Header names and values by their bytes.
pub open spec fn headers_view(h: Seq<(&str, &str)>) -> Seq<(Seq<u8>, Seq<u8>)> {
    h.map_values(|p: (&str, &str)| (text_bytes(p.0@), text_bytes(p.1@)))
}

impl Default for PutMetadata {
    fn default() -> (r: Self)
        ensures
            r@ == default_metadata(),
    {
        let r = PutMetadata {
            ttl: None,
            stale_ttl: None,
            tags: Vec::new(),
            cost: None,
            content_type: ContentType::OctetStream,
        };
        assert(r@.tags =~= Seq::<Seq<u8>>::empty());
        r
    }
}

/// The error for a bad TTL value, carrying the trimmed value.
fn ttl_error(header: &'static str, b: &[u8], start: usize, end: usize) -> (e: ApiError)
    requires
        start <= end <= b@.len(),
        vstd::utf8::valid_utf8(b@.subrange(start as int, end as int)),
    ensures
        e@ == (ApiErrorModel::InvalidTtl { header: header@, value: b@.subrange(start as int, end as int) }),
{
    ApiError::InvalidTtl { header, value: utf8_string(b, start, end) }
}

/// Parses a TTL header value.
fn parse_ttl(header: &'static str, value: &str) -> (r: Result<Ttl, ApiError>)
    ensures
        match r {
            Ok(t) => ttl_of(header@, text_bytes(value@)) == Ok::<Ttl, ApiErrorModel>(t),
            Err(e) => ttl_of(header@, text_bytes(value@)) == Err::<Ttl, ApiErrorModel>(e@),
        },
{
    let b = value.as_bytes();
    proof {
        lemma_text_bytes(value@);
        lemma_trim_valid(b@);
        assert(b@.subrange(0, b@.len() as int) =~= b@);
    }
    let (start, end) = trim_range(b, 0, b.len());
    let ghost t = b@.subrange(start as int, end as int);
    if start == end || b[start] == 45 {
        return Err(ttl_error(header, b, start, end));
    }
    let n = end - start;
    let (num_end, mult): (usize, u64) = if n >= 2 && b[end - 2] == 109 && b[end - 1] == 115 {
        (end - 2, 1)
    } else if b[end - 1] == 115 {
        (end - 1, 1000)
    } else if b[end - 1] == 109 {
        (end - 1, 60000)
    } else if b[end - 1] == 104 {
        (end - 1, 3600000)
    } else {
        (end, 1000)
    };
    assert(ttl_unit(t).0 =~= b@.subrange(start as int, num_end as int));
    assert(ttl_unit(t).1 == mult);
    let amount = match parse_u64_range(b, start, num_end) {
        Some(a) => a,
        None => {
            return Err(ttl_error(header, b, start, end));
        },
    };
    let ms = match amount.checked_mul(mult) {
        Some(m) => m,
        None => {
            return Err(ttl_error(header, b, start, end));
        },
    };
    if ms == 0 {
        return Err(ttl_error(header, b, start, end));
    }
    Ok(Ttl { milliseconds: ms })
}

/// The trimmed piece `b[from..to]` as a tag, if it is one.
fn tag_piece(b: &[u8], from: usize, to: usize) -> (r: Option<String>)
    requires
        from <= to <= b@.len(),
    ensures
        r is Some <==> valid_tag(trim(b@.subrange(from as int, to as int))),
        r matches Some(t) ==> text_bytes(t@) == trim(b@.subrange(from as int, to as int)),
{
    let (ts, te) = trim_range(b, from, to);
    if !tag_bytes_ok(slice_range(b, ts, te)) {
        return None;
    }
    proof {
        let tg = b@.subrange(ts as int, te as int);
        assert forall|k: int| 0 <= k < tg.len() implies #[trigger] tg[k] <= 0x7f by {
            assert(is_tag_byte(tg[k]));
        }
        lemma_ascii_valid(tg);
    }
    Some(utf8_string(b, ts, te))
}

/// Parses a tags header value.
fn parse_tags(value: &str) -> (r: Result<Vec<String>, ApiError>)
    ensures
        match r {
            Ok(ts) => tags_of(text_bytes(value@)) == Ok::<Seq<Seq<u8>>, ApiErrorModel>(
                ts@.map_values(|t: String| text_bytes(t@)),
            ),
            Err(e) => tags_of(text_bytes(value@)) == Err::<Seq<Seq<u8>>, ApiErrorModel>(e@),
        },
{
    let b = value.as_bytes();
    assert(b@ == text_bytes(value@));
    let ghost all = pieces_from(b@, Seq::empty());
    let ghost mut done: Seq<Seq<u8>> = Seq::empty();
    let mut tags: Vec<String> = Vec::new();
    let mut start: usize = 0;
    let mut i: usize = 0;
    assert(b@.subrange(0, 0) =~= Seq::<u8>::empty());
    assert(b@.subrange(0, b@.len() as int) =~= b@);
    while i < b.len()
        invariant
            0 <= start <= i <= b@.len(),
            b@ == text_bytes(value@),
            all == pieces_from(b@, Seq::empty()),
            all == done + pieces_from(
                b@.subrange(i as int, b@.len() as int),
                b@.subrange(start as int, i as int),
            ),
            forall|k: int| 0 <= k < done.len() ==> valid_tag(#[trigger] trim(done[k])),
            tags@.map_values(|t: String| text_bytes(t@)) == done.map_values(|p: Seq<u8>| trim(p)),
        decreases b@.len() - i,
    {
        let ghost rest = b@.subrange(i as int, b@.len() as int);
        let ghost cur = b@.subrange(start as int, i as int);
        assert(rest[0] == b@[i as int]);
        assert(rest.drop_first() =~= b@.subrange(i + 1, b@.len() as int));
        if b[i] == 44 {
            assert(all[done.len() as int] == cur);
            match tag_piece(b, start, i) {
                None => {
                    proof {
                        assert(pieces_from(rest, cur) == seq![cur] + pieces_from(rest.drop_first(), Seq::empty()));
                        assert(done.len() < all.len());
                        assert(!valid_tag(trim(all[done.len() as int])));
                        assert(!(forall|k: int| 0 <= k < all.len() ==> valid_tag(#[trigger] trim(all[k]))));
                    }
                    return Err(ApiError::InvalidTags);
                },
                Some(tag) => {
                    let ghost prev = tags@;
                    tags.push(tag);
                    proof {
                        let d1 = done.push(cur);
                        assert(prev.map_values(|t: String| text_bytes(t@)).len() == prev.len());
                        assert forall|k: int| 0 <= k < d1.len() implies text_bytes(
                            #[trigger] tags@[k]@,
                        ) == trim(d1[k]) by {
                            if k < done.len() {
                                assert(tags@[k] == prev[k]);
                                assert(prev.map_values(|t: String| text_bytes(t@))[k]
                                    == done.map_values(|p: Seq<u8>| trim(p))[k]);
                            }
                        }
                        assert(tags@.map_values(|t: String| text_bytes(t@)) =~= d1.map_values(
                            |p: Seq<u8>| trim(p),
                        ));
                        assert(b@.subrange(i + 1, i + 1) =~= Seq::<u8>::empty());
                        assert(all =~= d1 + pieces_from(
                            b@.subrange(i + 1, b@.len() as int),
                            b@.subrange(i + 1, i + 1),
                        ));
                        done = d1;
                    }
                },
            }
            start = i + 1;
        } else {
            assert(cur.push(b@[i as int]) =~= b@.subrange(start as int, i + 1));
        }
        i = i + 1;
    }
    let ghost cur = b@.subrange(start as int, i as int);
    assert(b@.subrange(i as int, b@.len() as int) =~= Seq::<u8>::empty());
    assert(all == done.push(cur));
    match tag_piece(b, start, i) {
        None => {
            assert(!valid_tag(trim(all[done.len() as int])));
            Err(ApiError::InvalidTags)
        },
        Some(tag) => {
            let ghost prev = tags@;
            tags.push(tag);
            proof {
                let d1 = done.push(cur);
                assert(prev.map_values(|t: String| text_bytes(t@)).len() == prev.len());
                assert forall|k: int| 0 <= k < d1.len() implies text_bytes(#[trigger] tags@[k]@)
                    == trim(d1[k]) by {
                    if k < done.len() {
                        assert(tags@[k] == prev[k]);
                        assert(prev.map_values(|t: String| text_bytes(t@))[k] == done.map_values(
                            |p: Seq<u8>| trim(p),
                        )[k]);
                    }
                }
                assert(tags@.map_values(|t: String| text_bytes(t@)) =~= all.map_values(
                    |p: Seq<u8>| trim(p),
                ));
            }
            Ok(tags)
        },
    }
}

proof fn lemma_metadata_err_sticks(hs: Seq<(Seq<u8>, Seq<u8>)>, k: int)
    requires
        0 <= k <= hs.len(),
        metadata_of(hs.take(k)) is Err,
    ensures
        metadata_of(hs) == metadata_of(hs.take(k)),
    decreases hs.len() - k,
{
    if hs.len() == k {
        assert(hs.take(k) =~= hs);
    } else {
        assert(hs.drop_last().take(k) =~= hs.take(k));
        lemma_metadata_err_sticks(hs.drop_last(), k);
    }
}

/// Reads the write metadata from request headers, in order; the first bad
/// value is an error.
pub fn parse_put_metadata(headers: &[(&str, &str)]) -> (r: Result<PutMetadata, ApiError>)
    ensures
        metadata_result(r) == metadata_of(headers_view(headers@)),
{
    let ghost hv = headers_view(headers@);
    let mut metadata = PutMetadata::default();
    let mut i: usize = 0;
    while i < headers.len()
        invariant
            0 <= i <= headers@.len(),
            hv == headers_view(headers@),
            metadata_of(hv.take(i as int)) == Ok::<MetadataModel, ApiErrorModel>(metadata@),
        decreases headers@.len() - i,
    {
        let (name, value) = headers[i];
        assert(hv.take(i as int + 1).drop_last() =~= hv.take(i as int));
        assert(hv.take(i as int + 1).last() == (text_bytes(name@), text_bytes(value@)));
        let nb = name.as_bytes();
        let vb = value.as_bytes();
        if lower_eq(nb, &[99u8, 97u8, 99u8, 104u8, 101u8, 98u8, 111u8, 120u8, 45u8, 116u8, 116u8, 108u8]) {
            match parse_ttl("Cachebox-TTL", value) {
                Ok(t) => {
                    metadata.ttl = Some(t);
                },
                Err(e) => {
                    proof {
                        lemma_metadata_err_sticks(hv, i as int + 1);
                    }
                    return Err(e);
                },
            }
        } else if lower_eq(
            nb,
            &[99u8, 97u8, 99u8, 104u8, 101u8, 98u8, 111u8, 120u8, 45u8, 115u8, 116u8, 97u8, 108u8, 101u8, 45u8, 116u8, 116u8, 108u8],
        ) {
            match parse_ttl("Cachebox-Stale-TTL", value) {
                Ok(t) => {
                    metadata.stale_ttl = Some(t);
                },
                Err(e) => {
                    proof {
                        lemma_metadata_err_sticks(hv, i as int + 1);
                    }
                    return Err(e);
                },
            }
        } else if lower_eq(nb, &[99u8, 97u8, 99u8, 104u8, 101u8, 98u8, 111u8, 120u8, 45u8, 116u8, 97u8, 103u8, 115u8]) {
            match parse_tags(value) {
                Ok(ts) => {
                    metadata.tags = ts;
                },
                Err(e) => {
                    proof {
                        lemma_metadata_err_sticks(hv, i as int + 1);
                    }
                    return Err(e);
                },
            }
        } else if lower_eq(nb, &[99u8, 97u8, 99u8, 104u8, 101u8, 98u8, 111u8, 120u8, 45u8, 99u8, 111u8, 115u8, 116u8]) {
            proof {
                assert(vb@.subrange(0, vb@.len() as int) =~= vb@);
            }
            match parse_u64_range(vb, 0, vb.len()) {
                Some(c) => {
                    metadata.cost = Some(c);
                },
                None => {
                    proof {
                        lemma_metadata_err_sticks(hv, i as int + 1);
                    }
                    return Err(ApiError::InvalidCost { value: String::from_str(value) });
                },
            }
        } else if lower_eq(nb, &[99u8, 111u8, 110u8, 116u8, 101u8, 110u8, 116u8, 45u8, 116u8, 121u8, 112u8, 101u8]) {
            metadata.content_type = if lower_eq(
                vb,
                &[97u8, 112u8, 112u8, 108u8, 105u8, 99u8, 97u8, 116u8, 105u8, 111u8, 110u8, 47u8, 111u8, 99u8, 116u8, 101u8, 116u8, 45u8, 115u8, 116u8, 114u8, 101u8, 97u8, 109u8],
            ) {
                ContentType::OctetStream
            } else {
                ContentType::Other
            };
        }
        i = i + 1;
    }
    assert(hv.take(headers@.len() as int) =~= hv);
    Ok(metadata)
}

} // verus!
