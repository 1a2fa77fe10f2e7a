//! Frame encoding: the byte layout of every payload, stated as spec
//! functions, and the encoders that produce it.

use vstd::prelude::*;
use crate::api::{ContentType, Ttl};
use crate::bytes::{
    append_slice, be_u16, be_u32, be_u64, text_bytes, write_u16, write_u32, write_u64,
};
use crate::protocol::{
    command_id, error_code_id, BatchItem, BatchItemModel, Command, Metadata, MetadataModel,
    RequestFrame, RequestModel, RequestPayload, ResponseFrame, ResponseModel, ResponsePayload,
    ResponsePayloadView, KIND_REQUEST, KIND_RESPONSE, MAGIC, VERSION,
};

verus! {

/// The wire byte of a boolean.
pub open spec fn bool_byte(b: bool) -> u8 {
    if b {
        1
    } else {
        0
    }
}

/// A byte string on the wire: its 32-bit length, then its bytes.
pub open spec fn enc_bytes(b: Seq<u8>) -> Seq<u8> {
    be_u32(b.len() as u32) + b
}

/// A run of byte strings, each length-prefixed, one after another.
pub open spec fn enc_list(items: Seq<Seq<u8>>) -> Seq<u8>
    decreases items.len(),
{
    if items.len() == 0 {
        Seq::empty()
    } else {
        enc_bytes(items[0]) + enc_list(items.drop_first())
    }
}

/// The milliseconds of an optional TTL, zero when absent.
pub open spec fn ttl_ms(t: Option<Ttl>) -> u64 {
    match t {
        Some(t) => t.milliseconds,
        None => 0,
    }
}

/// The wire byte of a content type.
pub open spec fn content_type_byte(c: ContentType) -> u8 {
    match c {
        ContentType::OctetStream => 0,
        ContentType::Other => 1,
    }
}

/// Metadata on the wire: TTL, stale TTL, cost flag and cost, tag count,
/// tags, content type.
pub open spec fn enc_metadata(m: MetadataModel) -> Seq<u8> {
    be_u64(ttl_ms(m.ttl)) + be_u64(ttl_ms(m.stale_ttl)) + seq![bool_byte(m.cost is Some)]
        + be_u64(
        match m.cost {
            Some(c) => c,
            None => 0,
        },
    ) + be_u16(m.tags.len() as u16) + enc_list(m.tags) + seq![content_type_byte(m.content_type)]
}

/// The payload bytes of each request.
pub open spec fn enc_request(p: RequestModel) -> Seq<u8> {
    match p {
        RequestModel::Get { namespace, key } => enc_bytes(namespace) + enc_bytes(key),
        RequestModel::Delete { namespace, key } => enc_bytes(namespace) + enc_bytes(key),
        RequestModel::Put { namespace, key, metadata, value } => enc_bytes(namespace) + enc_bytes(
            key,
        ) + enc_metadata(metadata) + enc_bytes(value),
        RequestModel::BatchGet { namespace, keys } => enc_bytes(namespace) + be_u32(
            keys.len() as u32,
        ) + enc_list(keys),
        RequestModel::TagInvalidate { namespace, tag } => enc_bytes(namespace) + enc_bytes(tag),
        RequestModel::LeaseStart { namespace, key, lease_ttl_ms, allow_stale_ms } => enc_bytes(
            namespace,
        ) + enc_bytes(key) + be_u64(lease_ttl_ms) + be_u64(
            match allow_stale_ms {
                Some(v) => v,
                None => 0,
            },
        ),
        RequestModel::LeaseComplete { namespace, key, lease_token, metadata, value } => enc_bytes(
            namespace,
        ) + enc_bytes(key) + enc_bytes(lease_token) + enc_metadata(metadata) + enc_bytes(value),
    }
}

/// One batch item on the wire: status byte, then the value for hits and
/// stale hits.
pub open spec fn enc_batch_item(i: BatchItemModel) -> Seq<u8> {
    match i {
        BatchItemModel::Hit(v) => seq![0x01u8] + enc_bytes(v),
        BatchItemModel::Stale(v) => seq![0x02u8] + enc_bytes(v),
        BatchItemModel::Miss => seq![0x03u8],
    }
}

/// Batch items one after another.
pub open spec fn enc_batch_items(items: Seq<BatchItemModel>) -> Seq<u8>
    decreases items.len(),
{
    if items.len() == 0 {
        Seq::empty()
    } else {
        enc_batch_item(items[0]) + enc_batch_items(items.drop_first())
    }
}

/// The payload bytes of each response: a status byte, then its fields.
pub open spec fn enc_response(p: ResponseModel) -> Seq<u8> {
    match p {
        ResponseModel::Ack => seq![0x00u8],
        ResponseModel::Hit(v) => seq![0x01u8] + enc_bytes(v),
        ResponseModel::Stale(v) => seq![0x02u8] + enc_bytes(v),
        ResponseModel::Miss => seq![0x03u8],
        ResponseModel::Stored { evicted } => seq![0x04u8] + be_u32(evicted),
        ResponseModel::Deleted { removed } => seq![0x05u8, bool_byte(removed)],
        ResponseModel::Invalidated { removed } => seq![0x06u8] + be_u32(removed),
        ResponseModel::LeaseGranted { lease_token, stale_value } => seq![0x07u8] + enc_bytes(
            lease_token,
        ) + match stale_value {
            Some(v) => seq![1u8] + enc_bytes(v),
            None => seq![0u8],
        },
        ResponseModel::LeaseDenied => seq![0x08u8],
        ResponseModel::Error { code, message } => seq![0xffu8] + be_u16(error_code_id(code))
            + enc_bytes(message),
        ResponseModel::BatchGet { items } => seq![0x00u8] + be_u32(items.len() as u32)
            + enc_batch_items(items),
    }
}

/// The 24-byte frame header.
pub open spec fn frame_header(kind: u8, command: u8, request_id: u64, payload_len: u32) -> Seq<
    u8,
> {
    seq![0x43u8, 0x42u8, 0x58u8, 0x31u8, 1u8, kind, command, 0u8] + be_u64(request_id) + be_u32(
        payload_len,
    ) + be_u32(0)
}

/// A whole frame: header with the payload's length, then the payload.
pub open spec fn enc_frame(kind: u8, command: Command, request_id: u64, payload: Seq<u8>) -> Seq<
    u8,
> {
    frame_header(kind, command_id(command), request_id, payload.len() as u32) + payload
}

/// The bytes of a request frame.
pub open spec fn enc_request_frame(f: crate::protocol::RequestFrameModel) -> Seq<u8> {
    enc_frame(KIND_REQUEST, f.command, f.request_id, enc_request(f.payload))
}

/// The bytes of a response frame.
pub open spec fn enc_response_frame(f: crate::protocol::ResponseFrameModel) -> Seq<u8> {
    enc_frame(KIND_RESPONSE, f.command, f.request_id, enc_response(f.payload))
}

/// Appending one more byte string to a run extends its encoding.
pub proof fn lemma_enc_list_push(items: Seq<Seq<u8>>, x: Seq<u8>)
    ensures
        enc_list(items.push(x)) == enc_list(items) + enc_bytes(x),
    decreases items.len(),
{
    if items.len() == 0 {
        assert(items.push(x).drop_first() =~= Seq::<Seq<u8>>::empty());
        reveal_with_fuel(enc_list, 2);
        assert(enc_list(items.push(x)) =~= enc_list(items) + enc_bytes(x));
    } else {
        lemma_enc_list_push(items.drop_first(), x);
        assert(items.push(x).drop_first() =~= items.drop_first().push(x));
        assert(items.push(x)[0] == items[0]);
        assert(enc_list(items.push(x)) == enc_bytes(items[0]) + (enc_list(items.drop_first())
            + enc_bytes(x)));
        assert(enc_list(items.push(x)) =~= enc_list(items) + enc_bytes(x));
    }
}

/// Appending one more item to a run extends its encoding.
pub proof fn lemma_enc_batch_items_push(items: Seq<BatchItemModel>, x: BatchItemModel)
    ensures
        enc_batch_items(items.push(x)) == enc_batch_items(items) + enc_batch_item(x),
    decreases items.len(),
{
    if items.len() == 0 {
        assert(items.push(x).drop_first() =~= Seq::<BatchItemModel>::empty());
        reveal_with_fuel(enc_batch_items, 2);
        assert(enc_batch_items(items.push(x)) =~= enc_batch_items(items) + enc_batch_item(x));
    } else {
        lemma_enc_batch_items_push(items.drop_first(), x);
        assert(items.push(x).drop_first() =~= items.drop_first().push(x));
        assert(items.push(x)[0] == items[0]);
        assert(enc_batch_items(items.push(x)) == enc_batch_item(items[0]) + (enc_batch_items(
            items.drop_first(),
        ) + enc_batch_item(x)));
        assert(enc_batch_items(items.push(x)) =~= enc_batch_items(items) + enc_batch_item(x));
    }
}

fn write_bool(out: &mut Vec<u8>, value: bool)
    ensures
        final(out)@ == old(out)@.push(bool_byte(value)),
{
    if value {
        out.push(1);
    } else {
        out.push(0);
    }
}

/// Appends a length-prefixed byte string. The length is written as 32 bits.
fn write_bytes(out: &mut Vec<u8>, value: &[u8])
    ensures
        final(out)@ == old(out)@ + enc_bytes(value@),
{
    write_u32(out, value.len() as u32);
    append_slice(out, value);
    assert(final(out)@ =~= old(out)@ + enc_bytes(value@));
}

/// Appends length-prefixed text.
fn write_string(out: &mut Vec<u8>, value: &str)
    ensures
        final(out)@ == old(out)@ + enc_bytes(text_bytes(value@)),
{
    write_bytes(out, value.as_bytes());
}

fn write_byte_lists(out: &mut Vec<u8>, items: &Vec<Vec<u8>>)
    ensures
        final(out)@ == old(out)@ + enc_list(items@.map_values(|k: Vec<u8>| k@)),
{
    let ghost model = items@.map_values(|k: Vec<u8>| k@);
    let mut i: usize = 0;
    assert(model.take(0) =~= Seq::<Seq<u8>>::empty());
    while i < items.len()
        invariant
            0 <= i <= items@.len(),
            model == items@.map_values(|k: Vec<u8>| k@),
            out@ == old(out)@ + enc_list(model.take(i as int)),
        decreases items@.len() - i,
    {
        proof {
            lemma_enc_list_push(model.take(i as int), model[i as int]);
            assert(model.take(i as int).push(model[i as int]) =~= model.take(i + 1));
        }
        write_bytes(out, items[i].as_slice());
        assert(out@ =~= old(out)@ + enc_list(model.take(i + 1)));
        i = i + 1;
    }
    assert(model.take(i as int) =~= model);
}

fn write_texts(out: &mut Vec<u8>, items: &Vec<String>)
    ensures
        final(out)@ == old(out)@ + enc_list(items@.map_values(|t: String| text_bytes(t@))),
{
    let ghost model = items@.map_values(|t: String| text_bytes(t@));
    let mut i: usize = 0;
    assert(model.take(0) =~= Seq::<Seq<u8>>::empty());
    while i < items.len()
        invariant
            0 <= i <= items@.len(),
            model == items@.map_values(|t: String| text_bytes(t@)),
            out@ == old(out)@ + enc_list(model.take(i as int)),
        decreases items@.len() - i,
    {
        proof {
            lemma_enc_list_push(model.take(i as int), model[i as int]);
            assert(model.take(i as int).push(model[i as int]) =~= model.take(i + 1));
        }
        write_string(out, items[i].as_str());
        assert(out@ =~= old(out)@ + enc_list(model.take(i + 1)));
        i = i + 1;
    }
    assert(model.take(i as int) =~= model);
}

fn write_metadata(out: &mut Vec<u8>, metadata: &Metadata)
    ensures
        final(out)@ == old(out)@ + enc_metadata(metadata@),
{
    let ttl = match metadata.ttl {
        Some(t) => t.milliseconds,
        None => 0,
    };
    write_u64(out, ttl);
    let stale = match metadata.stale_ttl {
        Some(t) => t.milliseconds,
        None => 0,
    };
    write_u64(out, stale);
    write_bool(out, metadata.cost.is_some());
    let cost = match metadata.cost {
        Some(c) => c,
        None => 0,
    };
    write_u64(out, cost);
    write_u16(out, metadata.tags.len() as u16);
    write_texts(out, &metadata.tags);
    match metadata.content_type {
        ContentType::OctetStream => out.push(0),
        ContentType::Other => out.push(1),
    }
    assert(final(out)@ =~= old(out)@ + enc_metadata(metadata@));
}

/// Appends the payload bytes of a request.
pub fn encode_request_payload(payload: &RequestPayload, out: &mut Vec<u8>)
    ensures
        final(out)@ == old(out)@ + enc_request(payload@),
{
    match payload {
        RequestPayload::Get { namespace, key } => {
            write_string(out, namespace.as_str());
            write_bytes(out, key.as_slice());
            assert(out@ =~= old(out)@ + enc_request(payload@));
        },
        RequestPayload::Delete { namespace, key } => {
            write_string(out, namespace.as_str());
            write_bytes(out, key.as_slice());
            assert(out@ =~= old(out)@ + enc_request(payload@));
        },
        RequestPayload::Put { namespace, key, metadata, value } => {
            write_string(out, namespace.as_str());
            write_bytes(out, key.as_slice());
            write_metadata(out, metadata);
            write_bytes(out, value.as_slice());
            assert(out@ =~= old(out)@ + enc_request(payload@));
        },
        RequestPayload::BatchGet { namespace, keys } => {
            write_string(out, namespace.as_str());
            write_u32(out, keys.len() as u32);
            write_byte_lists(out, keys);
            assert(out@ =~= old(out)@ + enc_request(payload@));
        },
        RequestPayload::TagInvalidate { namespace, tag } => {
            write_string(out, namespace.as_str());
            write_string(out, tag.as_str());
            assert(out@ =~= old(out)@ + enc_request(payload@));
        },
        RequestPayload::LeaseStart { namespace, key, lease_ttl_ms, allow_stale_ms } => {
            write_string(out, namespace.as_str());
            write_bytes(out, key.as_slice());
            write_u64(out, *lease_ttl_ms);
            let stale = match allow_stale_ms {
                Some(v) => *v,
                None => 0,
            };
            write_u64(out, stale);
            assert(out@ =~= old(out)@ + enc_request(payload@));
        },
        RequestPayload::LeaseComplete { namespace, key, lease_token, metadata, value } => {
            write_string(out, namespace.as_str());
            write_bytes(out, key.as_slice());
            write_string(out, lease_token.as_str());
            write_metadata(out, metadata);
            write_bytes(out, value.as_slice());
            assert(out@ =~= old(out)@ + enc_request(payload@));
        },
    }
}

fn write_batch_items(out: &mut Vec<u8>, items: &Vec<BatchItem>)
    ensures
        final(out)@ == old(out)@ + enc_batch_items(items@.map_values(|i: BatchItem| i@)),
{
    let ghost model = items@.map_values(|i: BatchItem| i@);
    let mut i: usize = 0;
    assert(model.take(0) =~= Seq::<BatchItemModel>::empty());
    while i < items.len()
        invariant
            0 <= i <= items@.len(),
            model == items@.map_values(|i: BatchItem| i@),
            out@ == old(out)@ + enc_batch_items(model.take(i as int)),
        decreases items@.len() - i,
    {
        proof {
            lemma_enc_batch_items_push(model.take(i as int), model[i as int]);
            assert(model.take(i as int).push(model[i as int]) =~= model.take(i + 1));
        }
        let ghost before = out@;
        match &items[i] {
            BatchItem::Hit(value) => {
                out.push(0x01);
                write_bytes(out, value.as_slice());
            },
            BatchItem::Stale(value) => {
                out.push(0x02);
                write_bytes(out, value.as_slice());
            },
            BatchItem::Miss => {
                out.push(0x03);
            },
        }
        assert(out@ =~= before + enc_batch_item(model[i as int]));
        assert(out@ =~= old(out)@ + enc_batch_items(model.take(i + 1)));
        i = i + 1;
    }
    assert(model.take(i as int) =~= model);
}

fn encode_response_payload(payload: &ResponsePayload, out: &mut Vec<u8>)
    ensures
        final(out)@ == old(out)@ + enc_response(payload@),
{
    match payload {
        ResponsePayload::Ack => out.push(0x00),
        ResponsePayload::Hit(value) => {
            out.push(0x01);
            write_bytes(out, value.as_slice());
        },
        ResponsePayload::Stale(value) => {
            out.push(0x02);
            write_bytes(out, value.as_slice());
        },
        ResponsePayload::Miss => out.push(0x03),
        ResponsePayload::Stored { evicted } => {
            out.push(0x04);
            write_u32(out, *evicted);
        },
        ResponsePayload::Deleted { removed } => {
            out.push(0x05);
            write_bool(out, *removed);
        },
        ResponsePayload::Invalidated { removed } => {
            out.push(0x06);
            write_u32(out, *removed);
        },
        ResponsePayload::LeaseGranted { lease_token, stale_value } => {
            out.push(0x07);
            write_string(out, lease_token.as_str());
            write_bool(out, stale_value.is_some());
            match stale_value {
                Some(value) => write_bytes(out, value.as_slice()),
                None => {},
            }
        },
        ResponsePayload::LeaseDenied => out.push(0x08),
        ResponsePayload::Error { code, message } => {
            out.push(0xff);
            write_u16(out, code.id());
            write_string(out, message.as_str());
        },
        ResponsePayload::BatchGet { items } => {
            out.push(0x00);
            write_u32(out, items.len() as u32);
            write_batch_items(out, items);
        },
    }
    assert(final(out)@ =~= old(out)@ + enc_response(payload@));
}

fn encode_response_payload_view(payload: &ResponsePayloadView<'_>, out: &mut Vec<u8>)
    ensures
        final(out)@ == old(out)@ + enc_response(payload@),
{
    match payload {
        ResponsePayloadView::Hit(value) => {
            out.push(0x01);
            write_bytes(out, value);
        },
        ResponsePayloadView::Stale(value) => {
            out.push(0x02);
            write_bytes(out, value);
        },
        ResponsePayloadView::Miss => out.push(0x03),
    }
    assert(final(out)@ =~= old(out)@ + enc_response(payload@));
}

/// Clears `out` and writes a header whose payload length is still zero.
fn begin_frame(kind: u8, command: Command, request_id: u64, out: &mut Vec<u8>)
    ensures
        final(out)@ == frame_header(kind, command_id(command), request_id, 0),
{
    out.clear();
    out.push(MAGIC[0]);
    out.push(MAGIC[1]);
    out.push(MAGIC[2]);
    out.push(MAGIC[3]);
    out.push(VERSION);
    out.push(kind);
    out.push(command.id());
    out.push(0);
    write_u64(out, request_id);
    write_u32(out, 0);
    write_u32(out, 0);
    assert(final(out)@ =~= frame_header(kind, command_id(command), request_id, 0));
}

/// Writes the payload length into a header that `begin_frame` started.
fn finish_frame(
    kind: u8,
    command: Command,
    request_id: u64,
    out: &mut Vec<u8>,
    payload: Ghost<Seq<u8>>,
)
    requires
        old(out)@ == frame_header(kind, command_id(command), request_id, 0) + payload@,
        payload@.len() <= u32::MAX,
    ensures
        final(out)@ == enc_frame(kind, command, request_id, payload@),
{
    let payload_len = (out.len() - 24) as u32;
    out.set(16, (payload_len >> 24u32) as u8);
    out.set(17, ((payload_len >> 16u32) & 0xffu32) as u8);
    out.set(18, ((payload_len >> 8u32) & 0xffu32) as u8);
    out.set(19, (payload_len & 0xffu32) as u8);
    assert(final(out)@ =~= enc_frame(kind, command, request_id, payload@));
}

/// Encodes a request frame into `out`, replacing what it held.
pub fn encode_request_frame_into(frame: &RequestFrame, out: &mut Vec<u8>)
    requires
        enc_request(frame.payload@).len() <= u32::MAX,
    ensures
        final(out)@ == enc_request_frame(frame@),
{
    begin_frame(KIND_REQUEST, frame.command, frame.request_id, out);
    let ghost header = out@;
    encode_request_payload(&frame.payload, out);
    finish_frame(KIND_REQUEST, frame.command, frame.request_id, out, Ghost(enc_request(frame.payload@)));
}

/// Encodes a request frame into a new buffer.
pub fn encode_request_frame(frame: &RequestFrame) -> (out: Vec<u8>)
    requires
        enc_request(frame.payload@).len() <= u32::MAX,
    ensures
        out@ == enc_request_frame(frame@),
{
    let mut out: Vec<u8> = Vec::new();
    encode_request_frame_into(frame, &mut out);
    out
}

/// Encodes a response frame into `out`, replacing what it held.
pub fn encode_response_frame_into(frame: &ResponseFrame, out: &mut Vec<u8>)
    requires
        enc_response(frame.payload@).len() <= u32::MAX,
    ensures
        final(out)@ == enc_response_frame(frame@),
{
    begin_frame(KIND_RESPONSE, frame.command, frame.request_id, out);
    encode_response_payload(&frame.payload, out);
    finish_frame(
        KIND_RESPONSE,
        frame.command,
        frame.request_id,
        out,
        Ghost(enc_response(frame.payload@)),
    );
}

/// Encodes a response frame into a new buffer.
pub fn encode_response_frame(frame: &ResponseFrame) -> (out: Vec<u8>)
    requires
        enc_response(frame.payload@).len() <= u32::MAX,
    ensures
        out@ == enc_response_frame(frame@),
{
    let mut out: Vec<u8> = Vec::new();
    encode_response_frame_into(frame, &mut out);
    out
}

/// Encodes a response whose value is borrowed into `out`, replacing what it
/// held; the bytes are those of the owned response with the same value.
pub fn encode_response_payload_view_frame_into(
    request_id: u64,
    command: Command,
    payload: ResponsePayloadView<'_>,
    out: &mut Vec<u8>,
)
    requires
        enc_response(payload@).len() <= u32::MAX,
    ensures
        final(out)@ == enc_frame(KIND_RESPONSE, command, request_id, enc_response(payload@)),
{
    begin_frame(KIND_RESPONSE, command, request_id, out);
    encode_response_payload_view(&payload, out);
    finish_frame(KIND_RESPONSE, command, request_id, out, Ghost(enc_response(payload@)));
}

} // verus!
