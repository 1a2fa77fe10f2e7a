//! The codec's central law: decoding what the encoder wrote gives back the
//! frame, for every well-formed frame.

use vstd::prelude::*;
use vstd::utf8::*;
use crate::api::ContentType;
use crate::bytes::{
    be_u16, be_u32, be_u64, lemma_u16_round_trip, lemma_u32_round_trip, lemma_u64_round_trip,
};
use crate::decode::{
    dec_borrowed_request_frame, dec_header, dec_request_frame, dec_response_frame,
    has_borrowed_form, payload_of, rd_batch_item, rd_batch_items, rd_bool, rd_byte_lists,
    rd_bytes, rd_exact, rd_lease_start, rd_metadata, rd_namespace, rd_namespace_key,
    rd_request, rd_response, rd_tag, rd_tags, rd_text, rd_u16, rd_u32, rd_u64, rd_u8, ttl_of_ms,
    Header,
};
use crate::encode::{
    bool_byte, content_type_byte, enc_batch_item, enc_batch_items, enc_bytes, enc_frame,
    enc_list, enc_metadata, enc_request, enc_request_frame, enc_response, enc_response_frame,
    frame_header, ttl_ms,
};
use crate::names::{valid_namespace, valid_tag};
use crate::protocol::{
    command_id, command_of_id, error_code_id, error_code_of_id, lemma_command_id_round_trip,
    BatchItemModel, Command, DecodeError, MetadataModel, RequestFrameModel, RequestModel,
    ResponseFrameModel, ResponseModel, KIND_REQUEST, KIND_RESPONSE,
};

verus! {

/// The bytes of `s` from `off` on begin with `e`.
pub open spec fn at(s: Seq<u8>, off: int, e: Seq<u8>) -> bool {
    0 <= off && off + e.len() <= s.len() && s.subrange(off, off + e.len()) == e
}

/// Text that can travel in a frame: valid UTF-8.
pub open spec fn text_ok(b: Seq<u8>) -> bool {
    valid_utf8(b)
}

/// A namespace that a frame can carry.
pub open spec fn namespace_ok(b: Seq<u8>) -> bool {
    valid_utf8(b) && valid_namespace(b)
}

/// A tag that a frame can carry.
pub open spec fn tag_ok(b: Seq<u8>) -> bool {
    valid_utf8(b) && valid_tag(b)
}

/// Metadata that survives the wire unchanged: no zero TTLs (zero means
/// "none" on the wire), at most 65535 tags, every tag valid.
pub open spec fn metadata_ok(m: MetadataModel) -> bool {
    &&& m.ttl != Some(crate::api::Ttl { milliseconds: 0 })
    &&& m.stale_ttl != Some(crate::api::Ttl { milliseconds: 0 })
    &&& m.tags.len() <= u16::MAX
    &&& forall|i: int| 0 <= i < m.tags.len() ==> #[trigger] tag_ok(m.tags[i])
}

proof fn lemma_at_split(s: Seq<u8>, off: int, e1: Seq<u8>, e2: Seq<u8>)
    requires
        at(s, off, e1 + e2),
    ensures
        at(s, off, e1),
        at(s, off + e1.len(), e2),
{
    let whole = s.subrange(off, off + e1.len() + e2.len());
    assert(whole == e1 + e2);
    assert(s.subrange(off, off + e1.len()) =~= whole.subrange(0, e1.len() as int));
    assert(whole.subrange(0, e1.len() as int) =~= e1);
    assert(s.subrange(off + e1.len(), off + e1.len() + e2.len()) =~= whole.subrange(
        e1.len() as int,
        whole.len() as int,
    ));
    assert(whole.subrange(e1.len() as int, whole.len() as int) =~= e2);
}

proof fn lemma_rd_u8_at(s: Seq<u8>, off: int, b: u8)
    requires
        at(s, off, seq![b]),
    ensures
        rd_u8(s, off) == Ok::<(u8, int), crate::protocol::DecodeError>((b, off + 1)),
{
    assert(s.subrange(off, off + 1)[0] == s[off]);
}

proof fn lemma_rd_u16_at(s: Seq<u8>, off: int, v: u16)
    requires
        at(s, off, be_u16(v)),
        s.len() <= u32::MAX,
    ensures
        rd_u16(s, off) == Ok::<(u16, int), crate::protocol::DecodeError>((v, off + 2)),
{
    lemma_u16_round_trip(v);
    assert(rd_exact(s, off, 2) == Ok::<(Seq<u8>, int), crate::protocol::DecodeError>(
        (be_u16(v), off + 2),
    ));
}

proof fn lemma_rd_u32_at(s: Seq<u8>, off: int, v: u32)
    requires
        at(s, off, be_u32(v)),
        s.len() <= u32::MAX,
    ensures
        rd_u32(s, off) == Ok::<(u32, int), crate::protocol::DecodeError>((v, off + 4)),
{
    lemma_u32_round_trip(v);
    assert(rd_exact(s, off, 4) == Ok::<(Seq<u8>, int), crate::protocol::DecodeError>(
        (be_u32(v), off + 4),
    ));
}

proof fn lemma_rd_u64_at(s: Seq<u8>, off: int, v: u64)
    requires
        at(s, off, be_u64(v)),
        s.len() <= u32::MAX,
    ensures
        rd_u64(s, off) == Ok::<(u64, int), crate::protocol::DecodeError>((v, off + 8)),
{
    lemma_u64_round_trip(v);
    assert(rd_exact(s, off, 8) == Ok::<(Seq<u8>, int), crate::protocol::DecodeError>(
        (be_u64(v), off + 8),
    ));
}

proof fn lemma_rd_bool_at(s: Seq<u8>, off: int, v: bool)
    requires
        at(s, off, seq![bool_byte(v)]),
    ensures
        rd_bool(s, off) == Ok::<(bool, int), crate::protocol::DecodeError>((v, off + 1)),
{
    lemma_rd_u8_at(s, off, bool_byte(v));
}

pub proof fn lemma_rd_bytes_at(s: Seq<u8>, off: int, b: Seq<u8>)
    requires
        at(s, off, enc_bytes(b)),
        s.len() <= u32::MAX,
    ensures
        rd_bytes(s, off) == Ok::<(Seq<u8>, int), crate::protocol::DecodeError>(
            (b, off + enc_bytes(b).len()),
        ),
        enc_bytes(b).len() == 4 + b.len(),
{
    lemma_u32_round_trip(b.len() as u32);
    lemma_at_split(s, off, be_u32(b.len() as u32), b);
    lemma_rd_u32_at(s, off, b.len() as u32);
    assert(rd_exact(s, off + 4, b.len() as int) == Ok::<(Seq<u8>, int), crate::protocol::DecodeError>(
        (b, off + 4 + b.len()),
    ));
}

pub proof fn lemma_rd_text_at(s: Seq<u8>, off: int, b: Seq<u8>)
    requires
        at(s, off, enc_bytes(b)),
        s.len() <= u32::MAX,
        text_ok(b),
    ensures
        rd_text(s, off) == Ok::<(Seq<u8>, int), crate::protocol::DecodeError>(
            (b, off + enc_bytes(b).len()),
        ),
{
    lemma_rd_bytes_at(s, off, b);
}

pub proof fn lemma_rd_namespace_at(s: Seq<u8>, off: int, b: Seq<u8>)
    requires
        at(s, off, enc_bytes(b)),
        s.len() <= u32::MAX,
        namespace_ok(b),
    ensures
        rd_namespace(s, off) == Ok::<(Seq<u8>, int), crate::protocol::DecodeError>(
            (b, off + enc_bytes(b).len()),
        ),
{
    lemma_rd_text_at(s, off, b);
}

pub proof fn lemma_rd_tag_at(s: Seq<u8>, off: int, b: Seq<u8>)
    requires
        at(s, off, enc_bytes(b)),
        s.len() <= u32::MAX,
        tag_ok(b),
    ensures
        rd_tag(s, off) == Ok::<(Seq<u8>, int), crate::protocol::DecodeError>(
            (b, off + enc_bytes(b).len()),
        ),
{
    lemma_rd_text_at(s, off, b);
}

pub proof fn lemma_rd_namespace_key_at(s: Seq<u8>, off: int, ns: Seq<u8>, key: Seq<u8>)
    requires
        at(s, off, enc_bytes(ns) + enc_bytes(key)),
        s.len() <= u32::MAX,
        namespace_ok(ns),
    ensures
        rd_namespace_key(s, off) == Ok::<((Seq<u8>, Seq<u8>), int), crate::protocol::DecodeError>(
            ((ns, key), off + enc_bytes(ns).len() + enc_bytes(key).len()),
        ),
{
    lemma_at_split(s, off, enc_bytes(ns), enc_bytes(key));
    lemma_rd_namespace_at(s, off, ns);
    lemma_rd_bytes_at(s, off + enc_bytes(ns).len(), key);
}

pub proof fn lemma_rd_tags_at(s: Seq<u8>, off: int, tags: Seq<Seq<u8>>)
    requires
        at(s, off, enc_list(tags)),
        s.len() <= u32::MAX,
        forall|i: int| 0 <= i < tags.len() ==> #[trigger] tag_ok(tags[i]),
    ensures
        rd_tags(s, off, tags.len()) == Ok::<(Seq<Seq<u8>>, int), crate::protocol::DecodeError>(
            (tags, off + enc_list(tags).len()),
        ),
    decreases tags.len(),
{
    if tags.len() == 0 {
        assert(tags =~= Seq::<Seq<u8>>::empty());
    } else {
        let rest = tags.drop_first();
        lemma_at_split(s, off, enc_bytes(tags[0]), enc_list(rest));
        assert(tag_ok(tags[0]));
        lemma_rd_tag_at(s, off, tags[0]);
        assert forall|i: int| 0 <= i < rest.len() implies #[trigger] tag_ok(rest[i]) by {
            assert(tag_ok(tags[i + 1]));
        }
        lemma_rd_tags_at(s, off + enc_bytes(tags[0]).len(), rest);
        assert(seq![tags[0]] + rest =~= tags);
        assert((tags.len() - 1) as nat == rest.len());
    }
}

pub proof fn lemma_rd_byte_lists_at(s: Seq<u8>, off: int, items: Seq<Seq<u8>>)
    requires
        at(s, off, enc_list(items)),
        s.len() <= u32::MAX,
    ensures
        rd_byte_lists(s, off, items.len()) == Ok::<
            (Seq<Seq<u8>>, int),
            crate::protocol::DecodeError,
        >((items, off + enc_list(items).len())),
    decreases items.len(),
{
    if items.len() == 0 {
        assert(items =~= Seq::<Seq<u8>>::empty());
    } else {
        let rest = items.drop_first();
        lemma_at_split(s, off, enc_bytes(items[0]), enc_list(rest));
        lemma_rd_bytes_at(s, off, items[0]);
        lemma_rd_byte_lists_at(s, off + enc_bytes(items[0]).len(), rest);
        assert(seq![items[0]] + rest =~= items);
        assert((items.len() - 1) as nat == rest.len());
    }
}

pub proof fn lemma_rd_metadata_at(s: Seq<u8>, off: int, m: MetadataModel)
    requires
        at(s, off, enc_metadata(m)),
        s.len() <= u32::MAX,
        metadata_ok(m),
    ensures
        rd_metadata(s, off) == Ok::<(MetadataModel, int), crate::protocol::DecodeError>(
            (m, off + enc_metadata(m).len()),
        ),
{
    reveal(rd_metadata);
    let cost = match m.cost {
        Some(c) => c,
        None => 0,
    };
    let e1 = be_u64(ttl_ms(m.ttl));
    let e2 = be_u64(ttl_ms(m.stale_ttl));
    let e3 = seq![bool_byte(m.cost is Some)];
    let e4 = be_u64(cost);
    let e5 = be_u16(m.tags.len() as u16);
    let e6 = enc_list(m.tags);
    let e7 = seq![content_type_byte(m.content_type)];
    lemma_u64_round_trip(ttl_ms(m.ttl));
    lemma_u64_round_trip(ttl_ms(m.stale_ttl));
    lemma_u64_round_trip(cost);
    lemma_u16_round_trip(m.tags.len() as u16);
    assert(enc_metadata(m) == e1 + e2 + e3 + e4 + e5 + e6 + e7);
    lemma_at_split(s, off, e1 + e2 + e3 + e4 + e5 + e6, e7);
    lemma_at_split(s, off, e1 + e2 + e3 + e4 + e5, e6);
    lemma_at_split(s, off, e1 + e2 + e3 + e4, e5);
    lemma_at_split(s, off, e1 + e2 + e3, e4);
    lemma_at_split(s, off, e1 + e2, e3);
    lemma_at_split(s, off, e1, e2);
    lemma_rd_u64_at(s, off, ttl_ms(m.ttl));
    lemma_rd_u64_at(s, off + 8, ttl_ms(m.stale_ttl));
    lemma_rd_bool_at(s, off + 16, m.cost is Some);
    lemma_rd_u64_at(s, off + 17, cost);
    lemma_rd_u16_at(s, off + 25, m.tags.len() as u16);
    lemma_rd_tags_at(s, off + 27, m.tags);
    let o6 = off + 27 + e6.len();
    lemma_rd_u8_at(s, o6, content_type_byte(m.content_type));
    assert(ttl_of_ms(ttl_ms(m.ttl)) == m.ttl);
    assert(ttl_of_ms(ttl_ms(m.stale_ttl)) == m.stale_ttl);
    assert(rd_tags(s, off + 27, (m.tags.len() as u16) as nat) == Ok::<
        (Seq<Seq<u8>>, int),
        crate::protocol::DecodeError,
    >((m.tags, o6)));
}


/// The command that carries each request.
pub open spec fn command_of_request(p: RequestModel) -> Command {
    match p {
        RequestModel::Get { .. } => Command::Get,
        RequestModel::Put { .. } => Command::Put,
        RequestModel::Delete { .. } => Command::Delete,
        RequestModel::BatchGet { .. } => Command::BatchGet,
        RequestModel::TagInvalidate { .. } => Command::TagInvalidate,
        RequestModel::LeaseStart { .. } => Command::LeaseStart,
        RequestModel::LeaseComplete { .. } => Command::LeaseComplete,
    }
}

/// A request that the decoder accepts back unchanged: valid names, a
/// non-empty batch, a non-zero lease TTL, no zero staleness (zero means
/// "none" on the wire), a non-empty lease token, and metadata that
/// survives the wire.
pub open spec fn request_ok(p: RequestModel) -> bool {
    match p {
        RequestModel::Get { namespace, key } => namespace_ok(namespace),
        RequestModel::Delete { namespace, key } => namespace_ok(namespace),
        RequestModel::Put { namespace, key, metadata, value } => namespace_ok(namespace)
            && metadata_ok(metadata),
        RequestModel::BatchGet { namespace, keys } => namespace_ok(namespace) && keys.len() > 0
            && keys.len() <= u32::MAX,
        RequestModel::TagInvalidate { namespace, tag } => namespace_ok(namespace) && tag_ok(tag),
        RequestModel::LeaseStart { namespace, key, lease_ttl_ms, allow_stale_ms } => namespace_ok(
            namespace,
        ) && lease_ttl_ms > 0 && allow_stale_ms != Some(0u64),
        RequestModel::LeaseComplete { namespace, key, lease_token, metadata, value } =>
            namespace_ok(namespace) && text_ok(lease_token) && lease_token.len() > 0
                && metadata_ok(metadata),
    }
}

proof fn lemma_rd_get_at(s: Seq<u8>, off: int, p: RequestModel)
    requires
        at(s, off, enc_request(p)),
        s.len() <= u32::MAX,
        request_ok(p),
        p is Get,
    ensures
        rd_request(command_of_request(p), s, off) == Ok::<(RequestModel, int), DecodeError>(
            (p, off + enc_request(p).len()),
        ),
{
    reveal(rd_request);
    if let RequestModel::Get { namespace, key } = p {
        lemma_rd_namespace_key_at(s, off, namespace, key);
    }
}

proof fn lemma_rd_delete_at(s: Seq<u8>, off: int, p: RequestModel)
    requires
        at(s, off, enc_request(p)),
        s.len() <= u32::MAX,
        request_ok(p),
        p is Delete,
    ensures
        rd_request(command_of_request(p), s, off) == Ok::<(RequestModel, int), DecodeError>(
            (p, off + enc_request(p).len()),
        ),
{
    reveal(rd_request);
    if let RequestModel::Delete { namespace, key } = p {
        lemma_rd_namespace_key_at(s, off, namespace, key);
    }
}

proof fn lemma_rd_put_at(s: Seq<u8>, off: int, p: RequestModel)
    requires
        at(s, off, enc_request(p)),
        s.len() <= u32::MAX,
        request_ok(p),
        p is Put,
    ensures
        rd_request(command_of_request(p), s, off) == Ok::<(RequestModel, int), DecodeError>(
            (p, off + enc_request(p).len()),
        ),
{
    reveal(rd_request);
    if let RequestModel::Put { namespace, key, metadata, value } = p {
        let a = enc_bytes(namespace) + enc_bytes(key);
        lemma_at_split(s, off, a + enc_metadata(metadata), enc_bytes(value));
        lemma_at_split(s, off, a, enc_metadata(metadata));
        lemma_rd_namespace_key_at(s, off, namespace, key);
        lemma_rd_metadata_at(s, off + a.len(), metadata);
        lemma_rd_bytes_at(s, off + a.len() + enc_metadata(metadata).len(), value);
    }
}

proof fn lemma_rd_batch_get_at(s: Seq<u8>, off: int, p: RequestModel)
    requires
        at(s, off, enc_request(p)),
        s.len() <= u32::MAX,
        request_ok(p),
        p is BatchGet,
    ensures
        rd_request(command_of_request(p), s, off) == Ok::<(RequestModel, int), DecodeError>(
            (p, off + enc_request(p).len()),
        ),
{
    reveal(rd_request);
    if let RequestModel::BatchGet { namespace, keys } = p {
        let a = enc_bytes(namespace);
        let b = be_u32(keys.len() as u32);
        lemma_u32_round_trip(keys.len() as u32);
        lemma_at_split(s, off, a + b, enc_list(keys));
        lemma_at_split(s, off, a, b);
        lemma_rd_namespace_at(s, off, namespace);
        lemma_rd_u32_at(s, off + a.len(), keys.len() as u32);
        lemma_rd_byte_lists_at(s, off + a.len() + 4, keys);
        assert(((keys.len() as u32) as nat) == keys.len());
    }
}

proof fn lemma_rd_tag_invalidate_at(s: Seq<u8>, off: int, p: RequestModel)
    requires
        at(s, off, enc_request(p)),
        s.len() <= u32::MAX,
        request_ok(p),
        p is TagInvalidate,
    ensures
        rd_request(command_of_request(p), s, off) == Ok::<(RequestModel, int), DecodeError>(
            (p, off + enc_request(p).len()),
        ),
{
    reveal(rd_request);
    if let RequestModel::TagInvalidate { namespace, tag } = p {
        lemma_at_split(s, off, enc_bytes(namespace), enc_bytes(tag));
        lemma_rd_namespace_at(s, off, namespace);
        lemma_rd_tag_at(s, off + enc_bytes(namespace).len(), tag);
    }
}

proof fn lemma_rd_lease_start_at(s: Seq<u8>, off: int, p: RequestModel)
    requires
        at(s, off, enc_request(p)),
        s.len() <= u32::MAX,
        request_ok(p),
        p is LeaseStart,
    ensures
        rd_request(command_of_request(p), s, off) == Ok::<(RequestModel, int), DecodeError>(
            (p, off + enc_request(p).len()),
        ),
{
    reveal(rd_request);
    if let RequestModel::LeaseStart { namespace, key, lease_ttl_ms, allow_stale_ms } = p {
        let stale = match allow_stale_ms {
            Some(v) => v,
            None => 0,
        };
        let a = enc_bytes(namespace) + enc_bytes(key);
        lemma_u64_round_trip(lease_ttl_ms);
        lemma_u64_round_trip(stale);
        lemma_at_split(s, off, a + be_u64(lease_ttl_ms), be_u64(stale));
        lemma_at_split(s, off, a, be_u64(lease_ttl_ms));
        lemma_rd_namespace_key_at(s, off, namespace, key);
        lemma_rd_u64_at(s, off + a.len(), lease_ttl_ms);
        lemma_rd_u64_at(s, off + a.len() + 8, stale);
        assert(rd_lease_start(s, off) == Ok::<(RequestModel, int), DecodeError>(
            (p, off + enc_request(p).len()),
        ));
    }
}

proof fn lemma_rd_lease_complete_at(s: Seq<u8>, off: int, p: RequestModel)
    requires
        at(s, off, enc_request(p)),
        s.len() <= u32::MAX,
        request_ok(p),
        p is LeaseComplete,
    ensures
        rd_request(command_of_request(p), s, off) == Ok::<(RequestModel, int), DecodeError>(
            (p, off + enc_request(p).len()),
        ),
{
    reveal(rd_request);
    if let RequestModel::LeaseComplete { namespace, key, lease_token, metadata, value } = p {
        let a = enc_bytes(namespace) + enc_bytes(key);
        let b = a + enc_bytes(lease_token);
        let c = b + enc_metadata(metadata);
        lemma_at_split(s, off, c, enc_bytes(value));
        lemma_at_split(s, off, b, enc_metadata(metadata));
        lemma_at_split(s, off, a, enc_bytes(lease_token));
        lemma_rd_namespace_key_at(s, off, namespace, key);
        lemma_rd_text_at(s, off + a.len(), lease_token);
        lemma_rd_metadata_at(s, off + b.len(), metadata);
        lemma_rd_bytes_at(s, off + c.len(), value);
    }
}

pub proof fn lemma_rd_request_at(s: Seq<u8>, off: int, p: RequestModel)
    requires
        at(s, off, enc_request(p)),
        s.len() <= u32::MAX,
        request_ok(p),
    ensures
        rd_request(command_of_request(p), s, off) == Ok::<(RequestModel, int), DecodeError>(
            (p, off + enc_request(p).len()),
        ),
{
    reveal(rd_request);
    match p {
        RequestModel::Get { .. } => lemma_rd_get_at(s, off, p),
        RequestModel::Delete { .. } => lemma_rd_delete_at(s, off, p),
        RequestModel::Put { .. } => lemma_rd_put_at(s, off, p),
        RequestModel::BatchGet { .. } => lemma_rd_batch_get_at(s, off, p),
        RequestModel::TagInvalidate { .. } => lemma_rd_tag_invalidate_at(s, off, p),
        RequestModel::LeaseStart { .. } => lemma_rd_lease_start_at(s, off, p),
        RequestModel::LeaseComplete { .. } => lemma_rd_lease_complete_at(s, off, p),
    }
}

/// A frame's header decodes to the fields it was written with.
pub proof fn lemma_dec_header(
    kind: u8,
    command: Command,
    request_id: u64,
    payload: Seq<u8>,
    max_payload_len: usize,
)
    requires
        payload.len() <= max_payload_len,
        payload.len() <= u32::MAX,
    ensures
        dec_header(enc_frame(kind, command, request_id, payload), max_payload_len, kind) == Ok::<
            Header,
            DecodeError,
        >(Header { command: command_id(command), request_id, payload_len: payload.len() as usize }),
        payload_of(
            enc_frame(kind, command, request_id, payload),
            Header { command: command_id(command), request_id, payload_len: payload.len() as usize },
        ) == payload,
        enc_frame(kind, command, request_id, payload).len() == 24 + payload.len(),
{
    reveal(dec_header);
    let input = enc_frame(kind, command, request_id, payload);
    let len = payload.len() as u32;
    lemma_u64_round_trip(request_id);
    lemma_u32_round_trip(len);
    lemma_u32_round_trip(0);
    let h = frame_header(kind, command_id(command), request_id, len);
    assert(h.len() == 24);
    assert(input.subrange(8, 16) =~= be_u64(request_id));
    assert(input.subrange(16, 20) =~= be_u32(len));
    assert(input.subrange(20, 24) =~= be_u32(0));
    assert(input.subrange(24, 24 + payload.len() as int) =~= payload);
}

/// Decoding an encoded well-formed request frame gives back the frame,
/// whenever its payload fits the decoder's limit.
pub proof fn law_request_frame_round_trip(f: RequestFrameModel, max_payload_len: usize)
    requires
        request_ok(f.payload),
        f.command == command_of_request(f.payload),
        enc_request(f.payload).len() <= max_payload_len,
        enc_request(f.payload).len() <= u32::MAX,
    ensures
        dec_request_frame(enc_request_frame(f), max_payload_len) == Ok::<
            RequestFrameModel,
            DecodeError,
        >(f),
{
    let payload = enc_request(f.payload);
    lemma_dec_header(KIND_REQUEST, f.command, f.request_id, payload, max_payload_len);
    lemma_command_id_round_trip(f.command);
    assert(at(payload, 0, payload)) by {
        assert(payload.subrange(0, payload.len() as int) =~= payload);
    }
    lemma_rd_request_at(payload, 0, f.payload);
}

/// Borrowed decoding of an encoded well-formed request frame gives back the
/// frame for the commands with a borrowed form, and nothing for the others.
pub proof fn law_borrowed_request_frame_round_trip(f: RequestFrameModel, max_payload_len: usize)
    requires
        request_ok(f.payload),
        f.command == command_of_request(f.payload),
        enc_request(f.payload).len() <= max_payload_len,
        enc_request(f.payload).len() <= u32::MAX,
    ensures
        dec_borrowed_request_frame(enc_request_frame(f), max_payload_len) == if has_borrowed_form(
            f.command,
        ) {
            Ok::<Option<RequestFrameModel>, DecodeError>(Some(f))
        } else {
            Ok::<Option<RequestFrameModel>, DecodeError>(None)
        },
{
    let payload = enc_request(f.payload);
    lemma_dec_header(KIND_REQUEST, f.command, f.request_id, payload, max_payload_len);
    lemma_command_id_round_trip(f.command);
    assert(at(payload, 0, payload)) by {
        assert(payload.subrange(0, payload.len() as int) =~= payload);
    }
    lemma_rd_request_at(payload, 0, f.payload);
}

/// Whenever the borrowed decoder yields a frame, the owned decoder yields
/// the same frame; whenever it fails, the owned decoder fails the same way.
pub proof fn law_borrowed_decode_agrees(input: Seq<u8>, max_payload_len: usize)
    ensures
        dec_borrowed_request_frame(input, max_payload_len) matches Ok(Some(m)) ==> dec_request_frame(
            input,
            max_payload_len,
        ) == Ok::<RequestFrameModel, DecodeError>(m),
        dec_borrowed_request_frame(input, max_payload_len) matches Err(e) ==> dec_request_frame(
            input,
            max_payload_len,
        ) == Err::<RequestFrameModel, DecodeError>(e),
{
}


/// A response that the decoder accepts back unchanged for the command it
/// answers: an empty acknowledgement is not an answer to a batch get, a
/// batch answers a batch get, and its text is valid UTF-8.
pub open spec fn response_ok(command: Command, p: ResponseModel) -> bool {
    match p {
        ResponseModel::Ack => command != Command::BatchGet,
        ResponseModel::BatchGet { items } => command == Command::BatchGet && items.len()
            <= u32::MAX,
        ResponseModel::LeaseGranted { lease_token, stale_value } => text_ok(lease_token),
        ResponseModel::Error { code, message } => text_ok(message),
        _ => true,
    }
}

proof fn lemma_rd_batch_item_at(s: Seq<u8>, off: int, i: BatchItemModel)
    requires
        at(s, off, enc_batch_item(i)),
        s.len() <= u32::MAX,
    ensures
        rd_batch_item(s, off) == Ok::<(BatchItemModel, int), DecodeError>(
            (i, off + enc_batch_item(i).len()),
        ),
{
    match i {
        BatchItemModel::Hit(v) => {
            lemma_at_split(s, off, seq![0x01u8], enc_bytes(v));
            lemma_rd_u8_at(s, off, 0x01u8);
            lemma_rd_bytes_at(s, off + 1, v);
        },
        BatchItemModel::Stale(v) => {
            lemma_at_split(s, off, seq![0x02u8], enc_bytes(v));
            lemma_rd_u8_at(s, off, 0x02u8);
            lemma_rd_bytes_at(s, off + 1, v);
        },
        BatchItemModel::Miss => {
            lemma_rd_u8_at(s, off, 0x03u8);
        },
    }
}

proof fn lemma_rd_batch_items_at(s: Seq<u8>, off: int, items: Seq<BatchItemModel>)
    requires
        at(s, off, enc_batch_items(items)),
        s.len() <= u32::MAX,
    ensures
        rd_batch_items(s, off, items.len()) == Ok::<(Seq<BatchItemModel>, int), DecodeError>(
            (items, off + enc_batch_items(items).len()),
        ),
    decreases items.len(),
{
    if items.len() == 0 {
        assert(items =~= Seq::<BatchItemModel>::empty());
    } else {
        let rest = items.drop_first();
        lemma_at_split(s, off, enc_batch_item(items[0]), enc_batch_items(rest));
        lemma_rd_batch_item_at(s, off, items[0]);
        lemma_rd_batch_items_at(s, off + enc_batch_item(items[0]).len(), rest);
        assert(seq![items[0]] + rest =~= items);
        assert((items.len() - 1) as nat == rest.len());
    }
}

#[verifier::spinoff_prover]
#[verifier::rlimit(40)]
proof fn lemma_rd_response_at(command: Command, s: Seq<u8>, off: int, p: ResponseModel)
    requires
        at(s, off, enc_response(p)),
        s.len() <= u32::MAX,
        response_ok(command, p),
    ensures
        rd_response(command, s, off) == Ok::<(ResponseModel, int), DecodeError>(
            (p, off + enc_response(p).len()),
        ),
{
    reveal(rd_response);
    match p {
        ResponseModel::Ack => {
            lemma_rd_u8_at(s, off, 0x00u8);
        },
        ResponseModel::Hit(v) => {
            lemma_at_split(s, off, seq![0x01u8], enc_bytes(v));
            lemma_rd_u8_at(s, off, 0x01u8);
            lemma_rd_bytes_at(s, off + 1, v);
        },
        ResponseModel::Stale(v) => {
            lemma_at_split(s, off, seq![0x02u8], enc_bytes(v));
            lemma_rd_u8_at(s, off, 0x02u8);
            lemma_rd_bytes_at(s, off + 1, v);
        },
        ResponseModel::Miss => {
            lemma_rd_u8_at(s, off, 0x03u8);
        },
        ResponseModel::Stored { evicted } => {
            lemma_at_split(s, off, seq![0x04u8], be_u32(evicted));
            lemma_rd_u8_at(s, off, 0x04u8);
            lemma_rd_u32_at(s, off + 1, evicted);
            lemma_u32_round_trip(evicted);
        },
        ResponseModel::Deleted { removed } => {
            assert(seq![0x05u8, bool_byte(removed)] =~= seq![0x05u8] + seq![bool_byte(removed)]);
            lemma_at_split(s, off, seq![0x05u8], seq![bool_byte(removed)]);
            lemma_rd_u8_at(s, off, 0x05u8);
            lemma_rd_bool_at(s, off + 1, removed);
        },
        ResponseModel::Invalidated { removed } => {
            lemma_at_split(s, off, seq![0x06u8], be_u32(removed));
            lemma_rd_u8_at(s, off, 0x06u8);
            lemma_rd_u32_at(s, off + 1, removed);
            lemma_u32_round_trip(removed);
        },
        ResponseModel::LeaseGranted { lease_token, stale_value } => {
            let tail = match stale_value {
                Some(v) => seq![1u8] + enc_bytes(v),
                None => seq![0u8],
            };
            lemma_at_split(s, off, seq![0x07u8] + enc_bytes(lease_token), tail);
            lemma_at_split(s, off, seq![0x07u8], enc_bytes(lease_token));
            lemma_rd_u8_at(s, off, 0x07u8);
            lemma_rd_text_at(s, off + 1, lease_token);
            let o2 = off + 1 + enc_bytes(lease_token).len();
            match stale_value {
                Some(v) => {
                    lemma_at_split(s, o2, seq![1u8], enc_bytes(v));
                    lemma_rd_bool_at(s, o2, true);
                    lemma_rd_bytes_at(s, o2 + 1, v);
                },
                None => {
                    lemma_rd_bool_at(s, o2, false);
                },
            }
        },
        ResponseModel::LeaseDenied => {
            lemma_rd_u8_at(s, off, 0x08u8);
        },
        ResponseModel::Error { code, message } => {
            let id = error_code_id(code);
            lemma_u16_round_trip(id);
            lemma_at_split(s, off, seq![0xffu8] + be_u16(id), enc_bytes(message));
            lemma_at_split(s, off, seq![0xffu8], be_u16(id));
            lemma_rd_u8_at(s, off, 0xffu8);
            lemma_rd_u16_at(s, off + 1, id);
            assert(error_code_of_id(id) == Some(code));
            lemma_rd_text_at(s, off + 3, message);
        },
        ResponseModel::BatchGet { items } => {
            let n = items.len() as u32;
            lemma_u32_round_trip(n);
            lemma_at_split(s, off, seq![0x00u8] + be_u32(n), enc_batch_items(items));
            lemma_at_split(s, off, seq![0x00u8], be_u32(n));
            lemma_rd_u8_at(s, off, 0x00u8);
            lemma_rd_u32_at(s, off + 1, n);
            lemma_rd_batch_items_at(s, off + 5, items);
            assert((n as nat) == items.len());
        },
    }
}

/// Decoding an encoded well-formed response frame gives back the frame,
/// whenever its payload fits the decoder's limit.
pub proof fn law_response_frame_round_trip(f: ResponseFrameModel, max_payload_len: usize)
    requires
        response_ok(f.command, f.payload),
        enc_response(f.payload).len() <= max_payload_len,
        enc_response(f.payload).len() <= u32::MAX,
    ensures
        dec_response_frame(enc_response_frame(f), max_payload_len) == Ok::<
            ResponseFrameModel,
            DecodeError,
        >(f),
{
    let payload = enc_response(f.payload);
    lemma_dec_header(KIND_RESPONSE, f.command, f.request_id, payload, max_payload_len);
    lemma_command_id_round_trip(f.command);
    assert(at(payload, 0, payload)) by {
        assert(payload.subrange(0, payload.len() as int) =~= payload);
    }
    lemma_rd_response_at(f.command, payload, 0, f.payload);
}

} // verus!
