//! The native client's own decisions: request ids, checking a response
//! against its request, reading results out of responses, and matching
//! pipelined responses to the requests they answer.

use std::collections::HashMap;
use vstd::prelude::*;
use crate::protocol::{BatchItem, Command, DecodeError, ErrorCode, ResponseFrame, ResponsePayload};
use crate::seqs::{find_first, lemma_find_first, lemma_find_first_absent, lemma_find_first_at};

verus! {

broadcast use vstd::std_specs::hash::group_hash_axioms;

#[verifier::external_type_specification]
#[verifier::external_body]
pub struct ExIoError(std::io::Error);

/// What a client request fails with.
#[derive(Debug)]
pub enum ClientError {
    Io(std::io::Error),
    Decode(DecodeError),
    Server { code: ErrorCode, message: String },
    UnexpectedResponse(&'static str),
}

/// The request id that follows `id`: one more, skipping zero when it
/// wraps around.
pub open spec fn following_id(id: u64) -> u64 {
    if id == u64::MAX {
        1
    } else {
        (id + 1) as u64
    }
}

/// The request id that follows `id`.
pub fn next_request_id(id: u64) -> (r: u64)
    ensures
        r == following_id(id),
{
    let n = id.wrapping_add(1);
    if n < 1 {
        1
    } else {
        n
    }
}

/// Whether `r` is the unexpected-response error with message `m`.
pub open spec fn is_unexpected<T>(r: Result<T, ClientError>, m: Seq<char>) -> bool {
    r matches Err(ClientError::UnexpectedResponse(x)) && x@ == m
}

/// What a response means to the request `request_id` with `command`: a
/// response with another id or command is unexpected; an error response is
/// the server's error; any other response is its payload.
pub fn check_response(request_id: u64, command: Command, response: ResponseFrame) -> (r: Result<
    ResponsePayload,
    ClientError,
>)
    ensures
        if response.request_id != request_id || response.command != command {
            is_unexpected(r, "response header mismatch"@)
        } else {
            match response.payload {
                ResponsePayload::Error { code, message } => r matches Err(
                    ClientError::Server { code: c, message: m },
                ) && c == code && m == message,
                p => r matches Ok(q) && q == p,
            }
        },
{
    if response.request_id != request_id || response.command != command {
        return Err(ClientError::UnexpectedResponse("response header mismatch"));
    }
    match response.payload {
        ResponsePayload::Error { code, message } => Err(ClientError::Server { code, message }),
        payload => Ok(payload),
    }
}

/// The eviction count of a stored response; any other is unexpected.
pub fn stored_count(payload: ResponsePayload, unexpected: &'static str) -> (r: Result<u32, ClientError>)
    ensures
        match payload {
            ResponsePayload::Stored { evicted } => r matches Ok(n) && n == evicted,
            _ => is_unexpected(r, unexpected@),
        },
{
    match payload {
        ResponsePayload::Stored { evicted } => Ok(evicted),
        _ => Err(ClientError::UnexpectedResponse(unexpected)),
    }
}

/// Whether a deleted response removed an entry; any other is unexpected.
pub fn deleted_flag(payload: ResponsePayload, unexpected: &'static str) -> (r: Result<bool, ClientError>)
    ensures
        match payload {
            ResponsePayload::Deleted { removed } => r matches Ok(b) && b == removed,
            _ => is_unexpected(r, unexpected@),
        },
{
    match payload {
        ResponsePayload::Deleted { removed } => Ok(removed),
        _ => Err(ClientError::UnexpectedResponse(unexpected)),
    }
}

/// The items of a batch response; any other is unexpected.
pub fn batch_items(payload: ResponsePayload, unexpected: &'static str) -> (r: Result<
    Vec<BatchItem>,
    ClientError,
>)
    ensures
        match payload {
            ResponsePayload::BatchGet { items } => r matches Ok(v) && v == items,
            _ => is_unexpected(r, unexpected@),
        },
{
    match payload {
        ResponsePayload::BatchGet { items } => Ok(items),
        _ => Err(ClientError::UnexpectedResponse(unexpected)),
    }
}

/// The removal count of an invalidated response; any other is unexpected.
pub fn invalidated_count(payload: ResponsePayload, unexpected: &'static str) -> (r: Result<
    u32,
    ClientError,
>)
    ensures
        match payload {
            ResponsePayload::Invalidated { removed } => r matches Ok(n) && n == removed,
            _ => is_unexpected(r, unexpected@),
        },
{
    match payload {
        ResponsePayload::Invalidated { removed } => Ok(removed),
        _ => Err(ClientError::UnexpectedResponse(unexpected)),
    }
}

/// Where the response to a pipelined request goes, and the command it
/// must answer.
#[derive(Debug, Clone, Copy, PartialEq, Eq, Structural)]
pub struct ExpectedResponse {
    pub index: usize,
    pub command: Command,
}

/// The responses to pipelined requests, put back in request order as they
/// arrive in any order.
pub struct PipelinedResponseMatcher {
    expected: HashMap<u64, ExpectedResponse>,
    payloads: Vec<Option<ResponsePayload>>,
    errors: Vec<Option<(ErrorCode, String)>>,
}

/// A slot that holds a server error.
pub open spec fn holds_error() -> spec_fn(Option<(ErrorCode, String)>) -> bool {
    |e: Option<(ErrorCode, String)>| e is Some
}

/// A slot that holds no payload.
pub open spec fn lacks_payload() -> spec_fn(Option<ResponsePayload>) -> bool {
    |p: Option<ResponsePayload>| p is None
}

/// The first error among the slots, by request order.
pub open spec fn first_error(errors: Seq<Option<(ErrorCode, String)>>) -> int {
    find_first(errors, holds_error(), errors.len() as int)
}

/// The first request whose slot has no payload.
pub open spec fn first_missing(payloads: Seq<Option<ResponsePayload>>) -> int {
    find_first(payloads, lacks_payload(), payloads.len() as int)
}

impl PipelinedResponseMatcher {
    /// The requests still waiting for a response, by request id.
    pub closed spec fn expected_map(&self) -> Map<u64, ExpectedResponse> {
        self.expected@
    }

    /// The payload received for each request, in request order.
    pub closed spec fn payloads(&self) -> Seq<Option<ResponsePayload>> {
        self.payloads@
    }

    /// The server error received for each request, in request order.
    pub closed spec fn errors(&self) -> Seq<Option<(ErrorCode, String)>> {
        self.errors@
    }

    /// One slot of each kind per request.
    pub open spec fn wf(&self) -> bool {
        self.payloads().len() == self.errors().len()
    }

    /// A matcher for `expected_count` requests, waiting for the responses
    /// that `expected` names.
    pub fn new(expected_count: usize, expected: HashMap<u64, ExpectedResponse>) -> (r: Self)
        ensures
            r.wf(),
            r.expected_map() == expected@,
            r.payloads().len() == expected_count,
            forall|i: int| 0 <= i < expected_count ==> #[trigger] r.payloads()[i] is None,
            forall|i: int| 0 <= i < expected_count ==> #[trigger] r.errors()[i] is None,
    {
        let mut payloads: Vec<Option<ResponsePayload>> = Vec::new();
        let mut errors: Vec<Option<(ErrorCode, String)>> = Vec::new();
        let mut i: usize = 0;
        while i < expected_count
            invariant
                0 <= i <= expected_count,
                payloads@.len() == i,
                errors@.len() == i,
                forall|k: int| 0 <= k < i ==> #[trigger] payloads@[k] is None,
                forall|k: int| 0 <= k < i ==> #[trigger] errors@[k] is None,
            decreases expected_count - i,
        {
            payloads.push(None);
            errors.push(None);
            i = i + 1;
        }
        PipelinedResponseMatcher { expected, payloads, errors }
    }

    /// Takes one response: it must answer a request still waiting, with
    /// that request's command; its payload, or its server error, goes to
    /// the request's slot. A response to an unknown id changes nothing; one
    /// with the wrong command still stops the request from waiting.
    pub fn push(&mut self, response: ResponseFrame) -> (r: Result<(), ClientError>)
        requires
            old(self).wf(),
            old(self).expected_map().contains_key(response.request_id) ==> old(
                self,
            ).expected_map()[response.request_id].index < old(self).payloads().len(),
        ensures
            final(self).wf(),
            ({
                let id = response.request_id;
                let m = old(self).expected_map();
                if !m.contains_key(id) {
                    &&& is_unexpected(r, "unknown response request id"@)
                    &&& final(self).expected_map() == m
                    &&& final(self).payloads() == old(self).payloads()
                    &&& final(self).errors() == old(self).errors()
                } else {
                    let e = m[id];
                    &&& final(self).expected_map() == m.remove(id)
                    &&& if response.command != e.command {
                        &&& is_unexpected(r, "response command mismatch"@)
                        &&& final(self).payloads() == old(self).payloads()
                        &&& final(self).errors() == old(self).errors()
                    } else {
                        &&& r is Ok
                        &&& match response.payload {
                            ResponsePayload::Error { code, message } => {
                                &&& final(self).errors() == old(self).errors().update(
                                    e.index as int,
                                    Some((code, message)),
                                )
                                &&& final(self).payloads() == old(self).payloads()
                            },
                            p => {
                                &&& final(self).payloads() == old(self).payloads().update(
                                    e.index as int,
                                    Some(p),
                                )
                                &&& final(self).errors() == old(self).errors()
                            },
                        }
                    }
                }
            }),
    {
        let expected = match self.expected.remove(&response.request_id) {
            None => {
                return Err(ClientError::UnexpectedResponse("unknown response request id"));
            },
            Some(e) => e,
        };
        if response.command != expected.command {
            return Err(ClientError::UnexpectedResponse("response command mismatch"));
        }
        match response.payload {
            ResponsePayload::Error { code, message } => {
                self.errors.set(expected.index, Some((code, message)));
            },
            payload => {
                self.payloads.set(expected.index, Some(payload));
            },
        }
        Ok(())
    }

    /// The payloads in request order, once every request is answered: the
    /// first server error in request order fails the whole, and so does a
    /// request left without a payload.
    pub fn finish(self) -> (r: Result<Vec<ResponsePayload>, ClientError>)
        requires
            self.wf(),
        ensures
            first_error(self.errors()) >= 0 ==> (r matches Err(
                ClientError::Server { code: c, message: m },
            ) && self.errors()[first_error(self.errors())] matches Some(e) && c == e.0 && m@
                == e.1@),
            first_error(self.errors()) < 0 && first_missing(self.payloads()) >= 0 ==> is_unexpected(
                r,
                "missing pipelined response payload"@,
            ),
            first_error(self.errors()) < 0 && first_missing(self.payloads()) < 0 ==> (r matches Ok(
                v,
            ) && v@.len() == self.payloads().len() && forall|i: int|
                0 <= i < v@.len() ==> self.payloads()[i] == Some(#[trigger] v@[i])),
    {
        let ghost pe = holds_error();
        let ghost pm = lacks_payload();
        let ghost es = self.errors@;
        let ghost ps = self.payloads@;
        let PipelinedResponseMatcher { expected: _, payloads, errors } = self;
        let mut i: usize = 0;
        while i < errors.len()
            invariant
                es == errors@,
                es == self.errors(),
                ps == self.payloads(),
                pe == holds_error(),
                0 <= i <= es.len(),
                forall|k: int| 0 <= k < i ==> !pe(#[trigger] es[k]),
            decreases es.len() - i,
        {
            match &errors[i] {
                Some((code, message)) => {
                    proof {
                        assert(pe(es[i as int]));
                        lemma_find_first_at(es, pe, i as int);
                    }
                    return Err(ClientError::Server { code: *code, message: message.clone() });
                },
                None => {},
            }
            i = i + 1;
        }
        proof {
            lemma_find_first_absent(es, pe);
        }
        let n = payloads.len();
        let mut rest = payloads;
        let mut rev: Vec<Option<ResponsePayload>> = Vec::new();
        while rest.len() > 0
            invariant
                n == ps.len(),
                ps == self.payloads(),
                first_error(self.errors()) < 0,
                rest@.len() + rev@.len() == n,
                rest@ == ps.subrange(0, rest@.len() as int),
                forall|k: int| 0 <= k < rev@.len() ==> #[trigger] rev@[k] == ps[n - 1 - k],
            decreases rest@.len(),
        {
            let x = rest.pop().unwrap();
            rev.push(x);
        }
        let mut out: Vec<ResponsePayload> = Vec::new();
        while rev.len() > 0
            invariant
                n == ps.len(),
                ps == self.payloads(),
                first_error(self.errors()) < 0,
                pm == lacks_payload(),
                out@.len() + rev@.len() == n,
                forall|k: int| 0 <= k < rev@.len() ==> #[trigger] rev@[k] == ps[n - 1 - k],
                forall|k: int| 0 <= k < out@.len() ==> ps[k] == Some(#[trigger] out@[k]),
            decreases rev@.len(),
        {
            let ghost at = out@.len() as int;
            assert(rev@[rev@.len() - 1] == ps[at]);
            let x = rev.pop().unwrap();
            match x {
                Some(p) => out.push(p),
                None => {
                    proof {
                        assert(pm(ps[at]));
                        assert forall|k: int| 0 <= k < at implies !pm(#[trigger] ps[k]) by {
                            assert(ps[k] == Some(out@[k]));
                        }
                        lemma_find_first_at(ps, pm, at);
                    }
                    return Err(ClientError::UnexpectedResponse("missing pipelined response payload"));
                },
            }
        }
        proof {
            assert forall|k: int| 0 <= k < ps.len() implies !pm(#[trigger] ps[k]) by {
                assert(ps[k] == Some(out@[k]));
            }
            lemma_find_first_absent(ps, pm);
        }
        Ok(out)
    }
}

} // verus!
