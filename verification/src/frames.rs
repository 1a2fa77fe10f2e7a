//! Answering one native request frame: decode it (borrowing its fields
//! where the command allows), execute it against the engine, and encode the
//! response; or answer the decode error.

use vstd::prelude::*;
use crate::decode::{
    dec_borrowed_request_frame, dec_request_frame, decode_borrowed_request_frame,
    decode_request_frame,
};
use crate::encode::{
    enc_batch_item, enc_batch_items, enc_frame, enc_response, enc_response_frame,
    encode_response_frame_into, encode_response_payload_view_frame_into,
};
use crate::engine::{Clock, GetOutcomeRef};
use crate::native::{
    counted_in, decode_error_response, execute_native_request, execute_native_request_view,
    get_response, metrics_shard_index, native_counts, native_decode_error_response, native_exec,
    native_exec_view, count_into, response_counts, Metrics, MetricsShard, MetricsSnapshot,
};
use crate::bytes::text_bytes;
use crate::protocol::{
    batch_items_model, RequestModel, BatchItem, BatchItemModel, Command, DecodeError, RequestPayload, RequestPayloadView,
    ResponseFrame, ResponseFrameModel, ResponseModel, ResponsePayload, ResponsePayloadView,
    KIND_RESPONSE,
};
use crate::sharded::{sharded_get_at, ShardedEngine, ShardedModel};

verus! {

/// Whether `resp` answers the request frame, the engine going from `m0` to
/// `m1`: a frame that decodes is executed (borrowed where its command
/// allows), and the response carries its id and command; one that does not
/// is answered with its decode error, when it has a header to answer, and
/// leaves the engine as it was.
pub open spec fn answers_frame(
    m0: ShardedModel,
    m1: ShardedModel,
    frame: Seq<u8>,
    max_payload_len: usize,
    resp: Option<ResponseFrameModel>,
) -> bool {
    match dec_borrowed_request_frame(frame, max_payload_len) {
        Ok(Some(f)) => resp matches Some(x) && x.request_id == f.request_id && x.command
            == f.command && exists|p: RequestPayloadView, now: u64|
            p@ == f.payload && #[trigger] native_exec_view(m0, p, now) == (x.payload, m1),
        Ok(None) => match dec_request_frame(frame, max_payload_len) {
            Ok(f) => resp matches Some(x) && x.request_id == f.request_id && x.command
                == f.command && exists|p: RequestPayload, times: Seq<u64>|
                p@ == f.payload && #[trigger] native_exec(m0, p, times) == (x.payload, m1),
            Err(e) => resp == decode_error_response(frame, e) && m1 == m0,
        },
        Err(e) => resp == decode_error_response(frame, e) && m1 == m0,
    }
}

/// Whether the metrics shards went from `ms0` to `ms1` by counting the
/// answer `resp` to a frame: a frame that decodes is counted, as
/// `native_counts` says of its request and response, in the shard of its
/// connection and request id; one that does not decode counts nothing.
pub open spec fn frame_counted(
    ms0: Seq<MetricsSnapshot>,
    ms1: Seq<MetricsSnapshot>,
    frame: Seq<u8>,
    max_payload_len: usize,
    connection_id: u64,
    resp: Option<ResponseFrameModel>,
) -> bool {
    match dec_borrowed_request_frame(frame, max_payload_len) {
        Ok(Some(f)) => resp matches Some(x) && ms1 == counted_in(
            ms0,
            metrics_shard_index(connection_id, f.request_id, ms0.len()),
            native_counts(f.payload, x.payload),
        ),
        Ok(None) => match dec_request_frame(frame, max_payload_len) {
            Ok(f) => resp matches Some(x) && ms1 == counted_in(
                ms0,
                metrics_shard_index(connection_id, f.request_id, ms0.len()),
                native_counts(f.payload, x.payload),
            ),
            Err(_) => ms1 == ms0,
        },
        Err(_) => ms1 == ms0,
    }
}

/// The models of an optional response frame.
pub open spec fn response_view(r: Option<ResponseFrame>) -> Option<ResponseFrameModel> {
    match r {
        Some(f) => Some(f@),
        None => None,
    }
}

/// Answers one request frame: decodes it, borrowing its fields where the
/// command allows and owning them otherwise, and executes it, counting it
/// in the metrics shard of the connection and request; a frame that does
/// not decode is answered with its error where it has a header to answer.
pub fn execute_native_frame<C: Clock>(
    engine: &mut ShardedEngine<C>,
    metrics: &mut Metrics,
    frame: &[u8],
    max_payload_len: usize,
    connection_id: u64,
) -> (r: Option<ResponseFrame>)
    requires
        old(engine).wf(),
        old(metrics).shard_count() > 0,
    ensures
        final(engine).wf(),
        answers_frame(old(engine)@, final(engine)@, frame@, max_payload_len, response_view(r)),
        frame_counted(old(metrics)@, final(metrics)@, frame@, max_payload_len, connection_id, response_view(r)),
{
    let ghost m0 = engine@;
    match decode_borrowed_request_frame(frame, max_payload_len) {
        Ok(Some(request)) => {
            let mut shard = MetricsShard::new();
            let ghost p = request.payload;
            let response = execute_native_request_view(engine, &mut shard, request);
            let ghost now = choose|now: u64|
                (response.payload@, engine@) == #[trigger] native_exec_view(m0, p, now);
            assert(native_exec_view(m0, p, now) == (response.payload@, engine@));
            let counts = shard.snapshot();
            assert(counts == native_counts(p@, response.payload@));
            metrics.record_for_request(connection_id, request.request_id, counts);
            Some(response)
        },
        Ok(None) => match decode_request_frame(frame, max_payload_len) {
            Ok(request) => {
                let mut shard = MetricsShard::new();
                let request_id = request.request_id;
                let ghost p = request.payload;
                let response = execute_native_request(engine, &mut shard, request);
                let ghost times = choose|times: Seq<u64>|
                    (response.payload@, engine@) == #[trigger] native_exec(m0, p, times);
                assert(native_exec(m0, p, times) == (response.payload@, engine@));
                let counts = shard.snapshot();
                assert(counts == native_counts(p@, response.payload@));
                metrics.record_for_request(connection_id, request_id, counts);
                Some(response)
            },
            Err(error) => native_decode_error_response(frame, error),
        },
        Err(error) => native_decode_error_response(frame, error),
    }
}

/// The largest payload length that a frame header can state.
pub const MAX_FRAME_PAYLOAD: u64 = 4294967295;

/// Batch items in two runs encode as the two encodings one after another.
proof fn lemma_batch_items_concat(a: Seq<BatchItemModel>, b: Seq<BatchItemModel>)
    ensures
        enc_batch_items(a + b) == enc_batch_items(a) + enc_batch_items(b),
    decreases a.len(),
{
    if a.len() == 0 {
        assert(a + b =~= b);
    } else {
        assert((a + b).drop_first() =~= a.drop_first() + b);
        lemma_batch_items_concat(a.drop_first(), b);
        assert(enc_batch_items(a + b) =~= enc_batch_items(a) + enc_batch_items(b));
    }
}

/// One batch item encodes as itself.
proof fn lemma_batch_items_single(x: BatchItemModel)
    ensures
        enc_batch_items(seq![x]) == enc_batch_item(x),
{
    reveal_with_fuel(enc_batch_items, 2);
    assert(seq![x].drop_first() =~= Seq::<BatchItemModel>::empty());
    assert(enc_batch_items(seq![x]) =~= enc_batch_item(x));
}

/// The encoded length of one batch item, when it fits in a frame.
fn batch_item_len(item: &BatchItem) -> (r: u64)
    ensures
        r == enc_batch_item(item@).len() || (r > MAX_FRAME_PAYLOAD && enc_batch_item(item@).len()
            > MAX_FRAME_PAYLOAD),
{
    match item {
        BatchItem::Hit(v) | BatchItem::Stale(v) => {
            if v.len() as u64 > MAX_FRAME_PAYLOAD {
                MAX_FRAME_PAYLOAD + 1
            } else {
                5 + v.len() as u64
            }
        },
        BatchItem::Miss => 1,
    }
}

/// Whether a response's payload fits in one frame: its length must be
/// stated in the 32 bits of the header.
pub fn response_fits(p: &ResponsePayload) -> (r: bool)
    ensures
        r == (enc_response(p@).len() <= MAX_FRAME_PAYLOAD),
{
    match p {
        ResponsePayload::Hit(v) | ResponsePayload::Stale(v) => v.len() as u64 <= MAX_FRAME_PAYLOAD - 5,
        ResponsePayload::LeaseGranted { lease_token, stale_value } => {
            let t = lease_token.as_str().as_bytes().len() as u64;
            match stale_value {
                Some(v) => t <= MAX_FRAME_PAYLOAD - 10 && v.len() as u64 <= MAX_FRAME_PAYLOAD - 10 - t,
                None => t <= MAX_FRAME_PAYLOAD - 6,
            }
        },
        ResponsePayload::Error { code: _, message } => message.as_str().as_bytes().len() as u64
            <= MAX_FRAME_PAYLOAD - 7,
        ResponsePayload::BatchGet { items } => {
            let ghost s = batch_items_model(items@);
            let mut total: u64 = 5;
            let mut i: usize = 0;
            while i < items.len()
                invariant
                    0 <= i <= items@.len(),
                    *p == (ResponsePayload::BatchGet { items: *items }),
                    s == batch_items_model(items@),
                    total == 5 + enc_batch_items(s.subrange(0, i as int)).len(),
                    total <= MAX_FRAME_PAYLOAD,
                decreases items@.len() - i,
            {
                let n = batch_item_len(&items[i]);
                proof {
                    assert(s.subrange(0, i + 1) =~= s.subrange(0, i as int) + seq![s[i as int]]);
                    lemma_batch_items_concat(s.subrange(0, i as int), seq![s[i as int]]);
                    lemma_batch_items_single(s[i as int]);
                    assert(s =~= s.subrange(0, i + 1) + s.subrange(i + 1, s.len() as int));
                    lemma_batch_items_concat(s.subrange(0, i + 1), s.subrange(i + 1, s.len() as int));
                }
                if n > MAX_FRAME_PAYLOAD - total {
                    return false;
                }
                total = total + n;
                i = i + 1;
            }
            assert(s.subrange(0, s.len() as int) =~= s);
            true
        },
        _ => true,
    }
}

/// Answers a read of the borrowed form by encoding the stored value
/// straight into a response frame, counting the read and its outcome in the
/// metrics shard. The answer is `false`, and `out` unchanged, when the value
/// is too large for a frame.
pub fn encode_native_get_response_frame<C: Clock>(
    engine: &mut ShardedEngine<C>,
    metrics: &mut MetricsShard,
    request_id: u64,
    command: Command,
    namespace: &str,
    key: &[u8],
    out: &mut Vec<u8>,
) -> (fits: bool)
    requires
        old(engine).wf(),
    ensures
        final(engine).wf(),
        exists|now: u64|
            #[trigger] get_frame_answer(
                old(engine)@,
                final(engine)@,
                namespace@,
                key@,
                now,
                request_id,
                command,
                fits,
                old(out)@,
                final(out)@,
            ) && final(metrics)@ == count_into(
                old(metrics)@,
                native_counts(
                    RequestModel::Get { namespace: text_bytes(namespace@), key: key@ },
                    get_response(sharded_get_at(old(engine)@, namespace@, key@, now, true).0),
                ),
            ),
{
    let ghost m0 = engine@;
    let encoded = engine.get_ref(
        namespace,
        key,
        (|outcome: GetOutcomeRef| -> (r: (Option<Vec<u8>>, MetricsSnapshot))
            ensures
                frame_if_fits(get_response(outcome@), command, request_id, bytes_view(r.0)),
                r.1 == response_counts(get_response(outcome@)),
            {
                let view = match outcome {
                    GetOutcomeRef::Hit(value) => ResponsePayloadView::Hit(value),
                    GetOutcomeRef::Stale(value) => ResponsePayloadView::Stale(value),
                    GetOutcomeRef::Miss => ResponsePayloadView::Miss,
                };
                let z = MetricsSnapshot::default();
                let counts = match outcome {
                    GetOutcomeRef::Hit(_) => MetricsSnapshot { hits_total: 1, ..z },
                    GetOutcomeRef::Stale(_) => MetricsSnapshot { stale_total: 1, ..z },
                    GetOutcomeRef::Miss => MetricsSnapshot { misses_total: 1, ..z },
                };
                let fits = match view {
                    ResponsePayloadView::Hit(v) | ResponsePayloadView::Stale(v) => v.len() as u64
                        <= MAX_FRAME_PAYLOAD - 5,
                    ResponsePayloadView::Miss => true,
                };
                if fits {
                    let mut b: Vec<u8> = Vec::new();
                    encode_response_payload_view_frame_into(request_id, command, view, &mut b);
                    (Some(b), counts)
                } else {
                    (None, counts)
                }
            }),
    );
    let ghost (now, o) = choose|now: u64, o: GetOutcomeRef|
        #![trigger sharded_get_at(m0, namespace@, key@, now, true), get_response(o@)]
        engine@ == sharded_get_at(m0, namespace@, key@, now, true).1 && o@
            == sharded_get_at(m0, namespace@, key@, now, true).0 && frame_if_fits(
            get_response(o@),
            command,
            request_id,
            bytes_view(encoded.0),
        ) && encoded.1 == response_counts(get_response(o@));
    let (bytes, outcome_counts) = encoded;
    let read = MetricsSnapshot { get_requests: 1, ..MetricsSnapshot::default() };
    metrics.record(read.saturating_add(outcome_counts));
    let fits = match bytes {
        Some(b) => {
            *out = b;
            true
        },
        None => false,
    };
    assert(get_frame_answer(m0, engine@, namespace@, key@, now, request_id, command, fits, old(out)@, out@));
    fits
}

/// The bytes of an optional buffer.
pub open spec fn bytes_view(r: Option<Vec<u8>>) -> Option<Seq<u8>> {
    match r {
        Some(b) => Some(b@),
        None => None,
    }
}

/// Whether `r` is the response frame of `p` when its payload fits in a
/// frame, and nothing when it does not.
pub open spec fn frame_if_fits(p: ResponseModel, command: Command, request_id: u64, r: Option<
    Seq<u8>,
>) -> bool {
    let payload = enc_response(p);
    match r {
        Some(b) => payload.len() <= MAX_FRAME_PAYLOAD && b == enc_frame(
            KIND_RESPONSE,
            command,
            request_id,
            payload,
        ),
        None => payload.len() > MAX_FRAME_PAYLOAD,
    }
}

/// What answering a read of the borrowed form at `now` does: the engine
/// goes from `m0` to `m1` as the read does, and `out` holds the response
/// frame when it fits, or is left as it was.
pub open spec fn get_frame_answer(
    m0: ShardedModel,
    m1: ShardedModel,
    namespace: Seq<char>,
    key: Seq<u8>,
    now: u64,
    request_id: u64,
    command: Command,
    fits: bool,
    before: Seq<u8>,
    after: Seq<u8>,
) -> bool {
    let (g, m) = sharded_get_at(m0, namespace, key, now, true);
    let payload = enc_response(get_response(g));
    &&& m1 == m
    &&& fits == (payload.len() <= MAX_FRAME_PAYLOAD)
    &&& fits ==> after == enc_frame(KIND_RESPONSE, command, request_id, payload)
    &&& !fits ==> after == before
}

/// Whether `out` went from `before` to `after` by writing the response
/// frame `resp`: nothing to write leaves it; a response is written, in
/// place of what it held, when its payload fits in a frame, and `fits`
/// says whether it did.
pub open spec fn written(resp: Option<ResponseFrameModel>, fits: bool, before: Seq<u8>, after: Seq<
    u8,
>) -> bool {
    match resp {
        None => fits && after == before,
        Some(x) => {
            &&& fits == (enc_response(x.payload).len() <= MAX_FRAME_PAYLOAD)
            &&& fits ==> after == enc_response_frame(x)
            &&& !fits ==> after == before
        },
    }
}

/// Writes a response frame in place of what `out` held, when its payload
/// fits in a frame.
fn write_response(response: &ResponseFrame, out: &mut Vec<u8>) -> (fits: bool)
    ensures
        written(Some(response@), fits, old(out)@, final(out)@),
{
    if response_fits(&response.payload) {
        encode_response_frame_into(response, out);
        true
    } else {
        false
    }
}

/// Writes the answer to a frame that did not decode, if it has one.
fn write_decode_error(frame: &[u8], error: DecodeError, out: &mut Vec<u8>) -> (fits: bool)
    ensures
        written(decode_error_response(frame@, error), fits, old(out)@, final(out)@),
{
    match native_decode_error_response(frame, error) {
        Some(response) => write_response(&response, out),
        None => true,
    }
}

/// Answers one request frame into `out`, as `execute_native_frame` does,
/// with reads of the borrowed form encoded straight from the stored value.
/// The answer is `false` when the response is too large for a frame.
pub fn execute_native_frame_bytes_into<C: Clock>(
    engine: &mut ShardedEngine<C>,
    metrics: &mut Metrics,
    frame: &[u8],
    max_payload_len: usize,
    connection_id: u64,
    out: &mut Vec<u8>,
) -> (fits: bool)
    requires
        old(engine).wf(),
        old(metrics).shard_count() > 0,
    ensures
        final(engine).wf(),
        exists|resp: Option<ResponseFrameModel>|
            #[trigger] answers_frame(old(engine)@, final(engine)@, frame@, max_payload_len, resp)
                && written(resp, fits, old(out)@, final(out)@) && frame_counted(
                old(metrics)@,
                final(metrics)@,
                frame@,
                max_payload_len,
                connection_id,
                resp,
            ),
{
    let ghost m0 = engine@;
    let ghost ms0 = metrics@;
    match decode_borrowed_request_frame(frame, max_payload_len) {
        Ok(Some(request)) => {
            let mut shard = MetricsShard::new();
            match request.payload {
                RequestPayloadView::Get { namespace, key } => {
                    let ghost p = request.payload;
                    let fits = encode_native_get_response_frame(
                        engine,
                        &mut shard,
                        request.request_id,
                        request.command,
                        namespace,
                        key,
                        out,
                    );
                    let ghost now = choose|now: u64|
                        #[trigger] get_frame_answer(
                            m0,
                            engine@,
                            namespace@,
                            key@,
                            now,
                            request.request_id,
                            request.command,
                            fits,
                            old(out)@,
                            out@,
                        ) && shard@ == count_into(
                            crate::native::zero_snapshot(),
                            native_counts(
                                RequestModel::Get { namespace: text_bytes(namespace@), key: key@ },
                                get_response(sharded_get_at(m0, namespace@, key@, now, true).0),
                            ),
                        );
                    let ghost g = sharded_get_at(m0, namespace@, key@, now, true).0;
                    let ghost x = ResponseFrameModel {
                        request_id: request.request_id,
                        command: request.command,
                        payload: get_response(g),
                    };
                    let counts = shard.snapshot();
                    assert(counts == native_counts(p@, x.payload));
                    metrics.record_for_request(connection_id, request.request_id, counts);
                    assert(native_exec_view(m0, p, now) == (x.payload, engine@));
                    assert(answers_frame(m0, engine@, frame@, max_payload_len, Some(x)));
                    assert(written(Some(x), fits, old(out)@, out@));
                    assert(frame_counted(ms0, metrics@, frame@, max_payload_len, connection_id, Some(x)));
                    fits
                },
                _ => {
                    let ghost p = request.payload;
                    let response = execute_native_request_view(engine, &mut shard, request);
                    let ghost now = choose|now: u64|
                        (response.payload@, engine@) == #[trigger] native_exec_view(m0, p, now);
                    assert(native_exec_view(m0, p, now) == (response.payload@, engine@));
                    let counts = shard.snapshot();
                    assert(counts == native_counts(p@, response.payload@));
                    metrics.record_for_request(connection_id, request.request_id, counts);
                    let fits = write_response(&response, out);
                    assert(answers_frame(m0, engine@, frame@, max_payload_len, Some(response@)));
                    assert(frame_counted(ms0, metrics@, frame@, max_payload_len, connection_id, Some(response@)));
                    fits
                },
            }
        },
        Ok(None) => match decode_request_frame(frame, max_payload_len) {
            Ok(request) => {
                let mut shard = MetricsShard::new();
                let request_id = request.request_id;
                let ghost p = request.payload;
                let response = execute_native_request(engine, &mut shard, request);
                let ghost times = choose|times: Seq<u64>|
                    (response.payload@, engine@) == #[trigger] native_exec(m0, p, times);
                assert(native_exec(m0, p, times) == (response.payload@, engine@));
                let counts = shard.snapshot();
                assert(counts == native_counts(p@, response.payload@));
                metrics.record_for_request(connection_id, request_id, counts);
                let fits = write_response(&response, out);
                assert(answers_frame(m0, engine@, frame@, max_payload_len, Some(response@)));
                assert(frame_counted(ms0, metrics@, frame@, max_payload_len, connection_id, Some(response@)));
                fits
            },
            Err(error) => {
                let fits = write_decode_error(frame, error, out);
                assert(answers_frame(m0, engine@, frame@, max_payload_len, decode_error_response(frame@, error)));
                fits
            },
        },
        Err(error) => {
            let fits = write_decode_error(frame, error, out);
            assert(answers_frame(m0, engine@, frame@, max_payload_len, decode_error_response(frame@, error)));
            fits
        },
    }
}

/// At most this many response frames are written in one batch.
pub const MAX_RESPONSE_WRITE_BATCH_FRAMES: usize = 32;

/// A batch stops taking responses once it holds this many bytes.
pub const MAX_RESPONSE_WRITE_BATCH_BYTES: usize = 65536;

#[verifier::external_type_specification]
#[verifier::external_body]
#[verifier::reject_recursive_types(T)]
pub struct ExResponseReceiver<T>(tokio::sync::mpsc::Receiver<T>);

/// `tokio::sync::mpsc::Receiver::try_recv`: a response already waiting on
/// the channel, if there is one.
///
/// Trusted, and nothing is stated of the result: whether a response is
/// waiting depends on the tasks that send them. The call takes the response
/// off the channel; it does not wait for one to be sent, though it may
/// briefly wait for a send that is under way to finish.
#[verifier::external_body]
fn try_recv_response(response_rx: &mut tokio::sync::mpsc::Receiver<Vec<u8>>) -> (r: Option<Vec<u8>>) {
    response_rx.try_recv().ok()
}

/// Whether the responses `chunks`, taken after `first`, make a batch as the
/// writer builds one: fewer than the frame limit beside the first, each
/// taken while the batch was under the byte limit, and all but the last
/// leaving it within that limit.
pub open spec fn coalesced(first: Seq<u8>, chunks: Seq<Seq<u8>>) -> bool {
    &&& chunks.len() < MAX_RESPONSE_WRITE_BATCH_FRAMES
    &&& forall|j: int|
        0 <= j < chunks.len() ==> (first + #[trigger] chunks.take(j).flatten()).len()
            < MAX_RESPONSE_WRITE_BATCH_BYTES
    &&& forall|j: int|
        0 <= j < chunks.len() - 1 ==> (first + #[trigger] chunks.take(j + 1).flatten()).len()
            <= MAX_RESPONSE_WRITE_BATCH_BYTES
}

/// Takes a response off the channel into the batch: the batch grows by the
/// response and counts one frame more. Whether the writer polls for another
/// response: while the batch is under both the frame limit and the byte
/// limit, so never after a response that took it past the byte limit.
pub fn coalesce_step(batch: &mut Vec<u8>, frames: &mut usize, response: Vec<u8>) -> (poll_more: bool)
    requires
        *old(frames) < MAX_RESPONSE_WRITE_BATCH_FRAMES,
    ensures
        final(batch)@ == old(batch)@ + response@,
        *final(frames) == *old(frames) + 1,
        poll_more == (*final(frames) < MAX_RESPONSE_WRITE_BATCH_FRAMES && final(batch)@.len()
            < MAX_RESPONSE_WRITE_BATCH_BYTES),
        old(batch)@.len() + response@.len() > MAX_RESPONSE_WRITE_BATCH_BYTES ==> !poll_more,
{
    let exceeds_batch_bytes = batch.len().saturating_add(response.len()) > MAX_RESPONSE_WRITE_BATCH_BYTES;
    batch.extend_from_slice(response.as_slice());
    *frames = *frames + 1;
    !exceeds_batch_bytes && *frames < MAX_RESPONSE_WRITE_BATCH_FRAMES && batch.len()
        < MAX_RESPONSE_WRITE_BATCH_BYTES
}

/// Joins the first response with those already waiting behind it into one
/// write: the first, then each waiting response in order, as `coalesced`
/// says. Each response taken goes through `coalesce_step`, and polling goes
/// on while the step says so and a response is waiting.
pub fn coalesce_native_responses(
    first: Vec<u8>,
    response_rx: &mut tokio::sync::mpsc::Receiver<Vec<u8>>,
) -> (r: Vec<u8>)
    ensures
        exists|chunks: Seq<Seq<u8>>|
            #[trigger] coalesced(first@, chunks) && r@ == first@ + chunks.flatten(),
{
    let ghost f = first@;
    let mut batch = first;
    let mut frames: usize = 1;
    let ghost mut chunks: Seq<Seq<u8>> = Seq::empty();
    proof {
        assert(chunks.flatten() =~= Seq::<u8>::empty());
        assert(batch@ =~= f + chunks.flatten());
    }
    let mut poll_more = batch.len() < MAX_RESPONSE_WRITE_BATCH_BYTES;
    while poll_more
        invariant
            frames == chunks.len() + 1,
            frames <= MAX_RESPONSE_WRITE_BATCH_FRAMES,
            poll_more ==> frames < MAX_RESPONSE_WRITE_BATCH_FRAMES && batch@.len()
                < MAX_RESPONSE_WRITE_BATCH_BYTES,
            batch@ == f + chunks.flatten(),
            coalesced(f, chunks),
        decreases MAX_RESPONSE_WRITE_BATCH_FRAMES - frames,
    {
        match try_recv_response(response_rx) {
            Some(response) => {
                let ghost old_chunks = chunks;
                proof {
                    chunks = chunks.push(response@);
                    old_chunks.lemma_flatten_push(response@);
                    assert(chunks.take(old_chunks.len() as int) =~= old_chunks);
                    assert(chunks.take(chunks.len() as int) =~= chunks);
                    assert forall|j: int| 0 <= j < chunks.len() implies (f
                        + #[trigger] chunks.take(j).flatten()).len()
                        < MAX_RESPONSE_WRITE_BATCH_BYTES by {
                        if j < old_chunks.len() {
                            assert(chunks.take(j) =~= old_chunks.take(j));
                        }
                    }
                    assert forall|j: int| 0 <= j < chunks.len() - 1 implies (f
                        + #[trigger] chunks.take(j + 1).flatten()).len()
                        <= MAX_RESPONSE_WRITE_BATCH_BYTES by {
                        if j + 1 < old_chunks.len() {
                            assert(chunks.take(j + 1) =~= old_chunks.take(j + 1));
                        } else {
                            assert(chunks.take(j + 1) =~= old_chunks);
                        }
                    }
                }
                poll_more = coalesce_step(&mut batch, &mut frames, response);
                proof {
                    assert(batch@ =~= f + chunks.flatten());
                }
            },
            None => {
                break;
            },
        }
    }
    batch
}

} // verus!
