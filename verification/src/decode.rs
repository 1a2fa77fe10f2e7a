//! Frame decoding: what each byte string decodes to, stated as spec
//! functions over the bytes, and the decoders that compute it.

use vstd::prelude::*;
use vstd::utf8::*;
use crate::api::{ContentType, Ttl};
use crate::bytes::{
    lemma_bytes_text, str_from_utf8, string_from_utf8, text_bytes, u16_of_be, u32_of_be,
    u64_of_be, copy_bytes,
};
use crate::names::{is_valid_namespace, is_valid_tag, valid_namespace, valid_tag};
use crate::protocol::{
    command_of_id, error_code_of_id, BatchItem, BatchItemModel, Command, DecodeError, ErrorCode,
    Metadata, MetadataModel, RequestFrame, RequestFrameModel, RequestFrameView, RequestModel,
    RequestPayload, RequestPayloadView, ResponseFrame, ResponseFrameModel, ResponseModel,
    ResponsePayload, HEADER_LEN, KIND_REQUEST, KIND_RESPONSE,
};

verus! {

broadcast use vstd::utf8::group_utf8_lib;

/// What a reader yields: the value and the offset just past it, or the error.
pub type Read<T> = Result<(T, int), DecodeError>;

// ---------------------------------------------------------------------------
// Field readers over a payload `p`, starting at offset `off`.
// ---------------------------------------------------------------------------

pub open spec fn rd_u8(p: Seq<u8>, off: int) -> Read<u8> {
    if 0 <= off < p.len() {
        Ok((p[off], off + 1))
    } else {
        Err(DecodeError::InvalidPayload("truncated u8"))
    }
}

pub open spec fn rd_exact(p: Seq<u8>, off: int, len: int) -> Read<Seq<u8>> {
    if off + len > usize::MAX {
        Err(DecodeError::InvalidPayload("length overflow"))
    } else if off + len > p.len() {
        Err(DecodeError::InvalidPayload("truncated field"))
    } else {
        Ok((p.subrange(off, off + len), off + len))
    }
}

pub open spec fn rd_u16(p: Seq<u8>, off: int) -> Read<u16> {
    match rd_exact(p, off, 2) {
        Ok((b, o)) => Ok((u16_of_be(b), o)),
        Err(e) => Err(e),
    }
}

pub open spec fn rd_u32(p: Seq<u8>, off: int) -> Read<u32> {
    match rd_exact(p, off, 4) {
        Ok((b, o)) => Ok((u32_of_be(b), o)),
        Err(e) => Err(e),
    }
}

pub open spec fn rd_u64(p: Seq<u8>, off: int) -> Read<u64> {
    match rd_exact(p, off, 8) {
        Ok((b, o)) => Ok((u64_of_be(b), o)),
        Err(e) => Err(e),
    }
}

pub open spec fn rd_bool(p: Seq<u8>, off: int) -> Read<bool> {
    match rd_u8(p, off) {
        Ok((v, o)) => if v == 0 {
            Ok((false, o))
        } else if v == 1 {
            Ok((true, o))
        } else {
            Err(DecodeError::InvalidBool(v))
        },
        Err(e) => Err(e),
    }
}

/// A length-prefixed byte string.
pub open spec fn rd_bytes(p: Seq<u8>, off: int) -> Read<Seq<u8>> {
    match rd_u32(p, off) {
        Ok((n, o)) => rd_exact(p, o, n as int),
        Err(e) => Err(e),
    }
}

/// A length-prefixed byte string that must be UTF-8 text.
pub open spec fn rd_text(p: Seq<u8>, off: int) -> Read<Seq<u8>> {
    match rd_bytes(p, off) {
        Ok((b, o)) => if valid_utf8(b) {
            Ok((b, o))
        } else {
            Err(DecodeError::InvalidUtf8)
        },
        Err(e) => Err(e),
    }
}

pub open spec fn rd_namespace(p: Seq<u8>, off: int) -> Read<Seq<u8>> {
    match rd_text(p, off) {
        Ok((b, o)) => if valid_namespace(b) {
            Ok((b, o))
        } else {
            Err(DecodeError::InvalidNamespace)
        },
        Err(e) => Err(e),
    }
}

pub open spec fn rd_tag(p: Seq<u8>, off: int) -> Read<Seq<u8>> {
    match rd_text(p, off) {
        Ok((b, o)) => if valid_tag(b) {
            Ok((b, o))
        } else {
            Err(DecodeError::InvalidTag)
        },
        Err(e) => Err(e),
    }
}

/// `n` byte strings in a row.
pub open spec fn rd_byte_lists(p: Seq<u8>, off: int, n: nat) -> Read<Seq<Seq<u8>>>
    decreases n,
{
    if n == 0 {
        Ok((Seq::empty(), off))
    } else {
        match rd_bytes(p, off) {
            Ok((b, o)) => match rd_byte_lists(p, o, (n - 1) as nat) {
                Ok((bs, o2)) => Ok((seq![b] + bs, o2)),
                Err(e) => Err(e),
            },
            Err(e) => Err(e),
        }
    }
}

/// `n` tags in a row.
pub open spec fn rd_tags(p: Seq<u8>, off: int, n: nat) -> Read<Seq<Seq<u8>>>
    decreases n,
{
    if n == 0 {
        Ok((Seq::empty(), off))
    } else {
        match rd_tag(p, off) {
            Ok((b, o)) => match rd_tags(p, o, (n - 1) as nat) {
                Ok((bs, o2)) => Ok((seq![b] + bs, o2)),
                Err(e) => Err(e),
            },
            Err(e) => Err(e),
        }
    }
}

/// A zero TTL on the wire means "no TTL".
pub open spec fn ttl_of_ms(ms: u64) -> Option<Ttl> {
    if ms == 0 {
        None
    } else {
        Some(Ttl { milliseconds: ms })
    }
}

#[verifier::opaque]
pub open spec fn rd_metadata(p: Seq<u8>, off: int) -> Read<MetadataModel> {
    match rd_u64(p, off) {
        Err(e) => Err(e),
        Ok((ttl, o1)) => match rd_u64(p, o1) {
            Err(e) => Err(e),
            Ok((stale, o2)) => match rd_bool(p, o2) {
                Err(e) => Err(e),
                Ok((has_cost, o3)) => match rd_u64(p, o3) {
                    Err(e) => Err(e),
                    Ok((cost, o4)) => match rd_u16(p, o4) {
                        Err(e) => Err(e),
                        Ok((count, o5)) => match rd_tags(p, o5, count as nat) {
                            Err(e) => Err(e),
                            Ok((tags, o6)) => match rd_u8(p, o6) {
                                Err(e) => Err(e),
                                Ok((ct, o7)) => if ct == 0 || ct == 1 {
                                    Ok(
                                        (
                                            MetadataModel {
                                                ttl: ttl_of_ms(ttl),
                                                stale_ttl: ttl_of_ms(stale),
                                                cost: if has_cost {
                                                    Some(cost)
                                                } else {
                                                    None
                                                },
                                                tags,
                                                content_type: if ct == 0 {
                                                    ContentType::OctetStream
                                                } else {
                                                    ContentType::Other
                                                },
                                            },
                                            o7,
                                        ),
                                    )
                                } else {
                                    Err(DecodeError::InvalidPayload("invalid content type"))
                                },
                            },
                        },
                    },
                },
            },
        },
    }
}

/// A namespace followed by a key: the shape of get and delete requests.
pub open spec fn rd_namespace_key(p: Seq<u8>, off: int) -> Read<(Seq<u8>, Seq<u8>)> {
    match rd_namespace(p, off) {
        Err(e) => Err(e),
        Ok((ns, o1)) => match rd_bytes(p, o1) {
            Err(e) => Err(e),
            Ok((key, o2)) => Ok(((ns, key), o2)),
        },
    }
}

/// The fields of a lease start: namespace, key, lease TTL (non-zero) and
/// the allowed staleness, where zero means none.
pub open spec fn rd_lease_start(p: Seq<u8>, off: int) -> Read<RequestModel> {
    match rd_namespace_key(p, off) {
        Err(e) => Err(e),
        Ok(((namespace, key), o2)) => match rd_u64(p, o2) {
            Err(e) => Err(e),
            Ok((lease_ttl_ms, o3)) => if lease_ttl_ms == 0 {
                Err(DecodeError::InvalidPayload("lease ttl must be greater than zero"))
            } else {
                match rd_u64(p, o3) {
                    Err(e) => Err(e),
                    Ok((stale, o4)) => Ok(
                        (
                            RequestModel::LeaseStart {
                                namespace,
                                key,
                                lease_ttl_ms,
                                allow_stale_ms: if stale == 0 {
                                    None
                                } else {
                                    Some(stale)
                                },
                            },
                            o4,
                        ),
                    ),
                }
            },
        },
    }
}

/// The payload of a request with the given command.
#[verifier::opaque]
pub open spec fn rd_request(command: Command, p: Seq<u8>, off: int) -> Read<RequestModel> {
    match command {
        Command::Get => match rd_namespace_key(p, off) {
            Err(e) => Err(e),
            Ok(((namespace, key), o)) => Ok((RequestModel::Get { namespace, key }, o)),
        },
        Command::Delete => match rd_namespace_key(p, off) {
            Err(e) => Err(e),
            Ok(((namespace, key), o)) => Ok((RequestModel::Delete { namespace, key }, o)),
        },
        Command::Put => match rd_namespace_key(p, off) {
            Err(e) => Err(e),
            Ok(((namespace, key), o2)) => match rd_metadata(p, o2) {
                Err(e) => Err(e),
                Ok((metadata, o3)) => match rd_bytes(p, o3) {
                    Err(e) => Err(e),
                    Ok((value, o4)) => Ok(
                        (RequestModel::Put { namespace, key, metadata, value }, o4),
                    ),
                },
            },
        },
        Command::BatchGet => match rd_namespace(p, off) {
            Err(e) => Err(e),
            Ok((namespace, o1)) => match rd_u32(p, o1) {
                Err(e) => Err(e),
                Ok((count, o2)) => if count == 0 {
                    Err(DecodeError::InvalidPayload("batch get requires at least one key"))
                } else {
                    match rd_byte_lists(p, o2, count as nat) {
                        Err(e) => Err(e),
                        Ok((keys, o3)) => Ok((RequestModel::BatchGet { namespace, keys }, o3)),
                    }
                },
            },
        },
        Command::TagInvalidate => match rd_namespace(p, off) {
            Err(e) => Err(e),
            Ok((namespace, o1)) => match rd_tag(p, o1) {
                Err(e) => Err(e),
                Ok((tag, o2)) => Ok((RequestModel::TagInvalidate { namespace, tag }, o2)),
            },
        },
        Command::LeaseStart => rd_lease_start(p, off),
        Command::LeaseComplete => match rd_namespace_key(p, off) {
            Err(e) => Err(e),
            Ok(((namespace, key), o2)) => match rd_text(p, o2) {
                Err(e) => Err(e),
                Ok((lease_token, o3)) => if lease_token.len() == 0 {
                    Err(DecodeError::InvalidPayload("lease token must be non-empty"))
                } else {
                    match rd_metadata(p, o3) {
                        Err(e) => Err(e),
                        Ok((metadata, o4)) => match rd_bytes(p, o4) {
                            Err(e) => Err(e),
                            Ok((value, o5)) => Ok(
                                (
                                    RequestModel::LeaseComplete {
                                        namespace,
                                        key,
                                        lease_token,
                                        metadata,
                                        value,
                                    },
                                    o5,
                                ),
                            ),
                        },
                    }
                },
            },
        },
    }
}

pub open spec fn rd_batch_item(p: Seq<u8>, off: int) -> Read<BatchItemModel> {
    match rd_u8(p, off) {
        Err(e) => Err(e),
        Ok((s, o)) => if s == 0x01 {
            match rd_bytes(p, o) {
                Err(e) => Err(e),
                Ok((v, o2)) => Ok((BatchItemModel::Hit(v), o2)),
            }
        } else if s == 0x02 {
            match rd_bytes(p, o) {
                Err(e) => Err(e),
                Ok((v, o2)) => Ok((BatchItemModel::Stale(v), o2)),
            }
        } else if s == 0x03 {
            Ok((BatchItemModel::Miss, o))
        } else {
            Err(DecodeError::InvalidPayload("invalid batch item status"))
        },
    }
}

/// `n` batch items in a row.
pub open spec fn rd_batch_items(p: Seq<u8>, off: int, n: nat) -> Read<Seq<BatchItemModel>>
    decreases n,
{
    if n == 0 {
        Ok((Seq::empty(), off))
    } else {
        match rd_batch_item(p, off) {
            Ok((b, o)) => match rd_batch_items(p, o, (n - 1) as nat) {
                Ok((bs, o2)) => Ok((seq![b] + bs, o2)),
                Err(e) => Err(e),
            },
            Err(e) => Err(e),
        }
    }
}

/// The payload of a response to the given command.
#[verifier::opaque]
pub open spec fn rd_response(command: Command, p: Seq<u8>, off: int) -> Read<ResponseModel> {
    match rd_u8(p, off) {
        Err(e) => Err(e),
        Ok((status, o)) => if status == 0x00 && command == Command::BatchGet {
            match rd_u32(p, o) {
                Err(e) => Err(e),
                Ok((count, o2)) => match rd_batch_items(p, o2, count as nat) {
                    Err(e) => Err(e),
                    Ok((items, o3)) => Ok((ResponseModel::BatchGet { items }, o3)),
                },
            }
        } else if status == 0x00 {
            Ok((ResponseModel::Ack, o))
        } else if status == 0x01 {
            match rd_bytes(p, o) {
                Err(e) => Err(e),
                Ok((v, o2)) => Ok((ResponseModel::Hit(v), o2)),
            }
        } else if status == 0x02 {
            match rd_bytes(p, o) {
                Err(e) => Err(e),
                Ok((v, o2)) => Ok((ResponseModel::Stale(v), o2)),
            }
        } else if status == 0x03 {
            Ok((ResponseModel::Miss, o))
        } else if status == 0x04 {
            match rd_u32(p, o) {
                Err(e) => Err(e),
                Ok((v, o2)) => Ok((ResponseModel::Stored { evicted: v }, o2)),
            }
        } else if status == 0x05 {
            match rd_bool(p, o) {
                Err(e) => Err(e),
                Ok((v, o2)) => Ok((ResponseModel::Deleted { removed: v }, o2)),
            }
        } else if status == 0x06 {
            match rd_u32(p, o) {
                Err(e) => Err(e),
                Ok((v, o2)) => Ok((ResponseModel::Invalidated { removed: v }, o2)),
            }
        } else if status == 0x07 {
            match rd_text(p, o) {
                Err(e) => Err(e),
                Ok((token, o2)) => match rd_bool(p, o2) {
                    Err(e) => Err(e),
                    Ok((has_stale, o3)) => if has_stale {
                        match rd_bytes(p, o3) {
                            Err(e) => Err(e),
                            Ok((v, o4)) => Ok(
                                (
                                    ResponseModel::LeaseGranted {
                                        lease_token: token,
                                        stale_value: Some(v),
                                    },
                                    o4,
                                ),
                            ),
                        }
                    } else {
                        Ok(
                            (
                                ResponseModel::LeaseGranted {
                                    lease_token: token,
                                    stale_value: None,
                                },
                                o3,
                            ),
                        )
                    },
                },
            }
        } else if status == 0x08 {
            Ok((ResponseModel::LeaseDenied, o))
        } else if status == 0xff {
            match rd_u16(p, o) {
                Err(e) => Err(e),
                Ok((id, o2)) => match error_code_of_id(id) {
                    None => Err(DecodeError::InvalidPayload("unknown error code")),
                    Some(code) => match rd_text(p, o2) {
                        Err(e) => Err(e),
                        Ok((message, o3)) => Ok((ResponseModel::Error { code, message }, o3)),
                    },
                },
            }
        } else {
            Err(DecodeError::InvalidPayload("unknown response status"))
        },
    }
}

// ---------------------------------------------------------------------------
// Frames.
// ---------------------------------------------------------------------------

/// The fields of a frame header that the payload decoder needs.
#[derive(Debug, Clone, Copy, PartialEq, Eq)]
pub struct Header {
    pub command: u8,
    pub request_id: u64,
    pub payload_len: usize,
}

/// The header of a frame of the expected kind, checked field by field in
/// wire order.
#[verifier::opaque]
pub open spec fn dec_header(input: Seq<u8>, max_payload_len: usize, kind: u8) -> Result<
    Header,
    DecodeError,
> {
    if input.len() < 24 {
        Err(DecodeError::IncompleteHeader)
    } else if !(input[0] == 0x43 && input[1] == 0x42 && input[2] == 0x58 && input[3] == 0x31) {
        Err(DecodeError::BadMagic)
    } else if input[4] != 1 {
        Err(DecodeError::UnsupportedVersion(input[4]))
    } else if input[5] != kind {
        Err(DecodeError::InvalidKind(input[5]))
    } else if input[7] != 0 {
        Err(DecodeError::NonzeroFlags(input[7]))
    } else if u32_of_be(input.subrange(16, 20)) > max_payload_len {
        Err(
            DecodeError::FrameTooLarge {
                payload_len: u32_of_be(input.subrange(16, 20)) as usize,
                max: max_payload_len,
            },
        )
    } else if u32_of_be(input.subrange(20, 24)) != 0 {
        Err(DecodeError::NonzeroReserved(u32_of_be(input.subrange(20, 24))))
    } else {
        Ok(
            Header {
                command: input[6],
                request_id: u64_of_be(input.subrange(8, 16)),
                payload_len: u32_of_be(input.subrange(16, 20)) as usize,
            },
        )
    }
}

/// The end of the payload: the header length plus the payload length,
/// wrapping on overflow as `wrapping_add` does.
pub open spec fn payload_end(len: usize) -> usize {
    if 24 + len <= usize::MAX {
        (24 + len) as usize
    } else {
        (24 + len - usize::MAX - 1) as usize
    }
}

/// The payload bytes of a frame whose header has been checked.
pub open spec fn payload_of(input: Seq<u8>, h: Header) -> Seq<u8> {
    input.subrange(24, 24 + h.payload_len)
}

/// Decoding a request frame: header, length, command, payload, and nothing
/// left over.
pub open spec fn dec_request_frame(input: Seq<u8>, max_payload_len: usize) -> Result<
    RequestFrameModel,
    DecodeError,
> {
    match dec_header(input, max_payload_len, KIND_REQUEST) {
        Err(e) => Err(e),
        Ok(h) => if input.len() < 24 + h.payload_len {
            Err(
                DecodeError::TruncatedPayload {
                    expected: payload_end(h.payload_len),
                    actual: input.len() as usize,
                },
            )
        } else {
            match command_of_id(h.command) {
                None => Err(DecodeError::UnknownCommand(h.command)),
                Some(command) => match rd_request(command, payload_of(input, h), 0) {
                    Err(e) => Err(e),
                    Ok((payload, o)) => if o == h.payload_len {
                        Ok(RequestFrameModel { request_id: h.request_id, command, payload })
                    } else {
                        Err(DecodeError::TrailingBytes((h.payload_len - o) as usize))
                    },
                },
            }
        },
    }
}

/// Whether requests with this command have a borrowed form.
pub open spec fn has_borrowed_form(command: Command) -> bool {
    command == Command::Get || command == Command::Delete || command == Command::TagInvalidate
        || command == Command::LeaseStart
}

/// Borrowed decoding: the same checks as owned decoding for the commands
/// with a borrowed form, and no payload decoding at all for the others.
pub open spec fn dec_borrowed_request_frame(input: Seq<u8>, max_payload_len: usize) -> Result<
    Option<RequestFrameModel>,
    DecodeError,
> {
    match dec_header(input, max_payload_len, KIND_REQUEST) {
        Err(e) => Err(e),
        Ok(h) => if input.len() < 24 + h.payload_len {
            Err(
                DecodeError::TruncatedPayload {
                    expected: payload_end(h.payload_len),
                    actual: input.len() as usize,
                },
            )
        } else {
            match command_of_id(h.command) {
                None => Err(DecodeError::UnknownCommand(h.command)),
                Some(command) => if !has_borrowed_form(command) {
                    Ok(None)
                } else {
                    match rd_request(command, payload_of(input, h), 0) {
                        Err(e) => Err(e),
                        Ok((payload, o)) => if o == h.payload_len {
                            Ok(Some(RequestFrameModel { request_id: h.request_id, command, payload }))
                        } else {
                            Err(DecodeError::TrailingBytes((h.payload_len - o) as usize))
                        },
                    }
                },
            }
        },
    }
}

/// Decoding a response frame.
pub open spec fn dec_response_frame(input: Seq<u8>, max_payload_len: usize) -> Result<
    ResponseFrameModel,
    DecodeError,
> {
    match dec_header(input, max_payload_len, KIND_RESPONSE) {
        Err(e) => Err(e),
        Ok(h) => if input.len() < 24 + h.payload_len {
            Err(
                DecodeError::TruncatedPayload {
                    expected: payload_end(h.payload_len),
                    actual: input.len() as usize,
                },
            )
        } else {
            match command_of_id(h.command) {
                None => Err(DecodeError::UnknownCommand(h.command)),
                Some(command) => match rd_response(command, payload_of(input, h), 0) {
                    Err(e) => Err(e),
                    Ok((payload, o)) => if o == h.payload_len {
                        Ok(ResponseFrameModel { request_id: h.request_id, command, payload })
                    } else {
                        Err(DecodeError::TrailingBytes((h.payload_len - o) as usize))
                    },
                },
            }
        },
    }
}


// ---------------------------------------------------------------------------
// The exec readers.
// ---------------------------------------------------------------------------

/// A read position in a payload.
pub struct Cursor<'a> {
    pub input: &'a [u8],
    pub offset: usize,
}

/// A cursor read that succeeded exactly when the spec reader does, with the
/// same value, and moved the cursor where the spec reader ends.
pub open spec fn read_matches<T>(
    spec_read: Read<T>,
    r: Result<T, DecodeError>,
    old_c: Cursor,
    new_c: Cursor,
) -> bool {
    &&& new_c.input == old_c.input
    &&& new_c.offset <= new_c.input@.len()
    &&& match spec_read {
        Ok((v, o)) => r == Ok::<T, DecodeError>(v) && new_c.offset == o,
        Err(e) => r == Err::<T, DecodeError>(e),
    }
}

impl<'a> Cursor<'a> {
    pub fn new(input: &'a [u8]) -> (c: Self)
        ensures
            c.input == input,
            c.offset == 0,
    {
        Cursor { input, offset: 0 }
    }

    pub fn read_u8(&mut self) -> (r: Result<u8, DecodeError>)
        requires
            old(self).offset <= old(self).input@.len(),
        ensures
            read_matches(rd_u8(old(self).input@, old(self).offset as int), r, *old(self), *final(self)),
    {
        if self.offset < self.input.len() {
            let byte = self.input[self.offset];
            self.offset = self.offset + 1;
            Ok(byte)
        } else {
            Err(DecodeError::InvalidPayload("truncated u8"))
        }
    }

    pub fn read_exact(&mut self, len: usize) -> (r: Result<&'a [u8], DecodeError>)
        requires
            old(self).offset <= old(self).input@.len(),
        ensures
            final(self).input == old(self).input,
            final(self).offset <= final(self).input@.len(),
            match rd_exact(old(self).input@, old(self).offset as int, len as int) {
                Ok((b, o)) => r matches Ok(x) && x@ == b && final(self).offset == o,
                Err(e) => r == Err::<&[u8], DecodeError>(e),
            },
    {
        let end = match self.offset.checked_add(len) {
            Some(end) => end,
            None => {
                return Err(DecodeError::InvalidPayload("length overflow"));
            },
        };
        if end > self.input.len() {
            return Err(DecodeError::InvalidPayload("truncated field"));
        }
        let bytes = &self.input[self.offset..end];
        self.offset = end;
        Ok(bytes)
    }

    pub fn read_u16(&mut self) -> (r: Result<u16, DecodeError>)
        requires
            old(self).offset <= old(self).input@.len(),
        ensures
            read_matches(rd_u16(old(self).input@, old(self).offset as int), r, *old(self), *final(self)),
    {
        let bytes = self.read_exact(2)?;
        Ok(((bytes[0] as u16) << 8u16) | (bytes[1] as u16))
    }

    pub fn read_u32(&mut self) -> (r: Result<u32, DecodeError>)
        requires
            old(self).offset <= old(self).input@.len(),
        ensures
            read_matches(rd_u32(old(self).input@, old(self).offset as int), r, *old(self), *final(self)),
    {
        let bytes = self.read_exact(4)?;
        Ok(((bytes[0] as u32) << 24u32) | ((bytes[1] as u32) << 16u32) | ((bytes[2] as u32) << 8u32)
            | (bytes[3] as u32))
    }

    pub fn read_u64(&mut self) -> (r: Result<u64, DecodeError>)
        requires
            old(self).offset <= old(self).input@.len(),
        ensures
            read_matches(rd_u64(old(self).input@, old(self).offset as int), r, *old(self), *final(self)),
    {
        let bytes = self.read_exact(8)?;
        Ok(((bytes[0] as u64) << 56u64) | ((bytes[1] as u64) << 48u64) | ((bytes[2] as u64)
            << 40u64) | ((bytes[3] as u64) << 32u64) | ((bytes[4] as u64) << 24u64) | ((
        bytes[5] as u64) << 16u64) | ((bytes[6] as u64) << 8u64) | (bytes[7] as u64))
    }

    pub fn read_bool(&mut self) -> (r: Result<bool, DecodeError>)
        requires
            old(self).offset <= old(self).input@.len(),
        ensures
            read_matches(rd_bool(old(self).input@, old(self).offset as int), r, *old(self), *final(self)),
    {
        let v = self.read_u8()?;
        if v == 0 {
            Ok(false)
        } else if v == 1 {
            Ok(true)
        } else {
            Err(DecodeError::InvalidBool(v))
        }
    }

    pub fn read_borrowed_bytes(&mut self) -> (r: Result<&'a [u8], DecodeError>)
        requires
            old(self).offset <= old(self).input@.len(),
        ensures
            final(self).input == old(self).input,
            final(self).offset <= final(self).input@.len(),
            match rd_bytes(old(self).input@, old(self).offset as int) {
                Ok((b, o)) => r matches Ok(x) && x@ == b && final(self).offset == o,
                Err(e) => r == Err::<&[u8], DecodeError>(e),
            },
    {
        let len = self.read_u32()?;
        self.read_exact(len as usize)
    }

    pub fn read_bytes(&mut self) -> (r: Result<Vec<u8>, DecodeError>)
        requires
            old(self).offset <= old(self).input@.len(),
        ensures
            final(self).input == old(self).input,
            final(self).offset <= final(self).input@.len(),
            match rd_bytes(old(self).input@, old(self).offset as int) {
                Ok((b, o)) => r matches Ok(x) && x@ == b && final(self).offset == o,
                Err(e) => r == Err::<Vec<u8>, DecodeError>(e),
            },
    {
        let bytes = self.read_borrowed_bytes()?;
        Ok(copy_bytes(bytes))
    }

    pub fn read_string(&mut self) -> (r: Result<String, DecodeError>)
        requires
            old(self).offset <= old(self).input@.len(),
        ensures
            final(self).input == old(self).input,
            final(self).offset <= final(self).input@.len(),
            match rd_text(old(self).input@, old(self).offset as int) {
                Ok((b, o)) => r matches Ok(x) && text_bytes(x@) == b && final(self).offset == o,
                Err(e) => r == Err::<String, DecodeError>(e),
            },
    {
        let bytes = self.read_bytes()?;
        let ghost b = bytes@;
        match string_from_utf8(bytes) {
            Some(s) => {
                proof {
                    lemma_bytes_text(b);
                }
                Ok(s)
            },
            None => Err(DecodeError::InvalidUtf8),
        }
    }

    pub fn read_borrowed_string(&mut self) -> (r: Result<&'a str, DecodeError>)
        requires
            old(self).offset <= old(self).input@.len(),
        ensures
            final(self).input == old(self).input,
            final(self).offset <= final(self).input@.len(),
            match rd_text(old(self).input@, old(self).offset as int) {
                Ok((b, o)) => r matches Ok(x) && text_bytes(x@) == b && final(self).offset == o,
                Err(e) => r == Err::<&str, DecodeError>(e),
            },
    {
        let bytes = self.read_borrowed_bytes()?;
        match str_from_utf8(bytes) {
            Some(s) => {
                proof {
                    lemma_bytes_text(bytes@);
                }
                Ok(s)
            },
            None => Err(DecodeError::InvalidUtf8),
        }
    }

    pub fn expect_empty(&self) -> (r: Result<(), DecodeError>)
        requires
            self.offset <= self.input@.len(),
        ensures
            self.offset == self.input@.len() ==> r is Ok,
            self.offset != self.input@.len() ==> r == Err::<(), DecodeError>(
                DecodeError::TrailingBytes((self.input@.len() - self.offset) as usize),
            ),
    {
        if self.offset == self.input.len() {
            Ok(())
        } else {
            Err(DecodeError::TrailingBytes(self.input.len() - self.offset))
        }
    }
}


/// Prepends decoded items to what a reader of the remaining items yields.
pub open spec fn prepend_read<T>(acc: Seq<T>, r: Read<Seq<T>>) -> Read<Seq<T>> {
    match r {
        Ok((xs, o)) => Ok((acc + xs, o)),
        Err(e) => Err(e),
    }
}

fn read_namespace(cursor: &mut Cursor) -> (r: Result<String, DecodeError>)
    requires
        old(cursor).offset <= old(cursor).input@.len(),
    ensures
        final(cursor).input == old(cursor).input,
        final(cursor).offset <= final(cursor).input@.len(),
        match rd_namespace(old(cursor).input@, old(cursor).offset as int) {
            Ok((b, o)) => r matches Ok(x) && text_bytes(x@) == b && final(cursor).offset == o,
            Err(e) => r == Err::<String, DecodeError>(e),
        },
{
    let namespace = cursor.read_string()?;
    if !is_valid_namespace(namespace.as_str()) {
        return Err(DecodeError::InvalidNamespace);
    }
    Ok(namespace)
}

fn read_tag(cursor: &mut Cursor) -> (r: Result<String, DecodeError>)
    requires
        old(cursor).offset <= old(cursor).input@.len(),
    ensures
        final(cursor).input == old(cursor).input,
        final(cursor).offset <= final(cursor).input@.len(),
        match rd_tag(old(cursor).input@, old(cursor).offset as int) {
            Ok((b, o)) => r matches Ok(x) && text_bytes(x@) == b && final(cursor).offset == o,
            Err(e) => r == Err::<String, DecodeError>(e),
        },
{
    let tag = cursor.read_string()?;
    if !is_valid_tag(tag.as_str()) {
        return Err(DecodeError::InvalidTag);
    }
    Ok(tag)
}

fn read_borrowed_namespace<'a>(cursor: &mut Cursor<'a>) -> (r: Result<&'a str, DecodeError>)
    requires
        old(cursor).offset <= old(cursor).input@.len(),
    ensures
        final(cursor).input == old(cursor).input,
        final(cursor).offset <= final(cursor).input@.len(),
        match rd_namespace(old(cursor).input@, old(cursor).offset as int) {
            Ok((b, o)) => r matches Ok(x) && text_bytes(x@) == b && final(cursor).offset == o,
            Err(e) => r == Err::<&str, DecodeError>(e),
        },
{
    let namespace = cursor.read_borrowed_string()?;
    if !is_valid_namespace(namespace) {
        return Err(DecodeError::InvalidNamespace);
    }
    Ok(namespace)
}

fn read_borrowed_tag<'a>(cursor: &mut Cursor<'a>) -> (r: Result<&'a str, DecodeError>)
    requires
        old(cursor).offset <= old(cursor).input@.len(),
    ensures
        final(cursor).input == old(cursor).input,
        final(cursor).offset <= final(cursor).input@.len(),
        match rd_tag(old(cursor).input@, old(cursor).offset as int) {
            Ok((b, o)) => r matches Ok(x) && text_bytes(x@) == b && final(cursor).offset == o,
            Err(e) => r == Err::<&str, DecodeError>(e),
        },
{
    let tag = cursor.read_borrowed_string()?;
    if !is_valid_tag(tag) {
        return Err(DecodeError::InvalidTag);
    }
    Ok(tag)
}

fn read_tags(cursor: &mut Cursor, count: u16) -> (r: Result<Vec<String>, DecodeError>)
    requires
        old(cursor).offset <= old(cursor).input@.len(),
    ensures
        final(cursor).input == old(cursor).input,
        final(cursor).offset <= final(cursor).input@.len(),
        match rd_tags(old(cursor).input@, old(cursor).offset as int, count as nat) {
            Ok((b, o)) => r matches Ok(x) && x@.map_values(|t: String| text_bytes(t@)) == b
                && final(cursor).offset == o,
            Err(e) => r == Err::<Vec<String>, DecodeError>(e),
        },
{
    let ghost p = cursor.input@;
    let ghost off0 = cursor.offset as int;
    let mut tags: Vec<String> = Vec::new();
    let mut i: u16 = 0;
    assert(tags@.map_values(|t: String| text_bytes(t@)) =~= Seq::<Seq<u8>>::empty());
    assert(prepend_read(Seq::<Seq<u8>>::empty(), rd_tags(p, off0, count as nat)) =~= rd_tags(
        p,
        off0,
        count as nat,
    )) by {
        match rd_tags(p, off0, count as nat) {
            Ok((xs, o)) => {
                assert(Seq::<Seq<u8>>::empty() + xs =~= xs);
            },
            Err(e) => {},
        }
    }
    while i < count
        invariant
            cursor.input == old(cursor).input,
            cursor.input@ == p,
            off0 == old(cursor).offset,
            cursor.offset <= cursor.input@.len(),
            0 <= i <= count,
            tags@.len() == i,
            rd_tags(p, off0, count as nat) == prepend_read(
                tags@.map_values(|t: String| text_bytes(t@)),
                rd_tags(p, cursor.offset as int, (count - i) as nat),
            ),
        decreases count - i,
    {
        let ghost acc = tags@.map_values(|t: String| text_bytes(t@));
        let ghost cur = cursor.offset as int;
        let tag = match read_tag(cursor) {
            Ok(t) => t,
            Err(e) => {
                assert(rd_tags(p, cur, (count - i) as nat) == Err::<(Seq<Seq<u8>>, int), DecodeError>(e));
                assert(rd_tags(p, off0, count as nat) == Err::<(Seq<Seq<u8>>, int), DecodeError>(e));

                return Err(e);
            },
        };
        proof {
            let t = text_bytes(tag@);
            let rest = rd_tags(p, cursor.offset as int, (count - i - 1) as nat);
            assert(rd_tags(p, cur, (count - i) as nat) == match rest {
                Ok((bs, o2)) => Ok((seq![t] + bs, o2)),
                Err(e) => Err::<(Seq<Seq<u8>>, int), DecodeError>(e),
            });
            match rest {
                Ok((bs, o2)) => {
                    assert(acc + (seq![t] + bs) =~= acc.push(t) + bs);
                },
                Err(e) => {},
            }
        }
        tags.push(tag);
        assert(tags@.map_values(|t: String| text_bytes(t@)) =~= acc.push(text_bytes(tags@[i as int]@)));
        i = i + 1;
    }
    proof {
        let acc = tags@.map_values(|t: String| text_bytes(t@));
        assert(acc + Seq::<Seq<u8>>::empty() =~= acc);
    }
    Ok(tags)
}

fn read_byte_lists(cursor: &mut Cursor, count: u32) -> (r: Result<Vec<Vec<u8>>, DecodeError>)
    requires
        old(cursor).offset <= old(cursor).input@.len(),
    ensures
        final(cursor).input == old(cursor).input,
        final(cursor).offset <= final(cursor).input@.len(),
        match rd_byte_lists(old(cursor).input@, old(cursor).offset as int, count as nat) {
            Ok((b, o)) => r matches Ok(x) && x@.map_values(|k: Vec<u8>| k@) == b
                && final(cursor).offset == o,
            Err(e) => r == Err::<Vec<Vec<u8>>, DecodeError>(e),
        },
{
    let ghost p = cursor.input@;
    let ghost off0 = cursor.offset as int;
    let mut keys: Vec<Vec<u8>> = Vec::new();
    let mut i: u32 = 0;
    assert(keys@.map_values(|k: Vec<u8>| k@) =~= Seq::<Seq<u8>>::empty());
    assert(prepend_read(Seq::<Seq<u8>>::empty(), rd_byte_lists(p, off0, count as nat))
        =~= rd_byte_lists(p, off0, count as nat)) by {
        match rd_byte_lists(p, off0, count as nat) {
            Ok((xs, o)) => {
                assert(Seq::<Seq<u8>>::empty() + xs =~= xs);
            },
            Err(e) => {},
        }
    }
    while i < count
        invariant
            cursor.input == old(cursor).input,
            cursor.input@ == p,
            off0 == old(cursor).offset,
            cursor.offset <= cursor.input@.len(),
            0 <= i <= count,
            keys@.len() == i,
            rd_byte_lists(p, off0, count as nat) == prepend_read(
                keys@.map_values(|k: Vec<u8>| k@),
                rd_byte_lists(p, cursor.offset as int, (count - i) as nat),
            ),
        decreases count - i,
    {
        let ghost acc = keys@.map_values(|k: Vec<u8>| k@);
        let ghost cur = cursor.offset as int;
        let key = match cursor.read_bytes() {
            Ok(k) => k,
            Err(e) => {
                assert(rd_byte_lists(p, cur, (count - i) as nat) == Err::<(Seq<Seq<u8>>, int), DecodeError>(e));
                assert(rd_byte_lists(p, off0, count as nat) == Err::<(Seq<Seq<u8>>, int), DecodeError>(e));
                return Err(e);
            },
        };
        proof {
            let t = key@;
            let rest = rd_byte_lists(p, cursor.offset as int, (count - i - 1) as nat);
            assert(rd_byte_lists(p, cur, (count - i) as nat) == match rest {
                Ok((bs, o2)) => Ok((seq![t] + bs, o2)),
                Err(e) => Err::<(Seq<Seq<u8>>, int), DecodeError>(e),
            });
            match rest {
                Ok((bs, o2)) => {
                    assert(acc + (seq![t] + bs) =~= acc.push(t) + bs);
                },
                Err(e) => {},
            }
        }
        keys.push(key);
        assert(keys@.map_values(|k: Vec<u8>| k@) =~= acc.push(keys@[i as int]@));
        i = i + 1;
    }
    proof {
        let acc = keys@.map_values(|k: Vec<u8>| k@);
        assert(acc + Seq::<Seq<u8>>::empty() =~= acc);
    }
    Ok(keys)
}

fn read_metadata(cursor: &mut Cursor) -> (r: Result<Metadata, DecodeError>)
    requires
        old(cursor).offset <= old(cursor).input@.len(),
    ensures
        final(cursor).input == old(cursor).input,
        final(cursor).offset <= final(cursor).input@.len(),
        match rd_metadata(old(cursor).input@, old(cursor).offset as int) {
            Ok((m, o)) => r matches Ok(x) && x@ == m && final(cursor).offset == o,
            Err(e) => r == Err::<Metadata, DecodeError>(e),
        },
{
    reveal(rd_metadata);
    let ttl_ms = cursor.read_u64()?;
    let ttl = if ttl_ms == 0 {
        None
    } else {
        Some(Ttl { milliseconds: ttl_ms })
    };
    let stale_ms = cursor.read_u64()?;
    let stale_ttl = if stale_ms == 0 {
        None
    } else {
        Some(Ttl { milliseconds: stale_ms })
    };
    let has_cost = cursor.read_bool()?;
    let cost_value = cursor.read_u64()?;
    let cost = if has_cost {
        Some(cost_value)
    } else {
        None
    };
    let tag_count = cursor.read_u16()?;
    let tags = read_tags(cursor, tag_count)?;
    let content = cursor.read_u8()?;
    let content_type = if content == 0 {
        ContentType::OctetStream
    } else if content == 1 {
        ContentType::Other
    } else {
        return Err(DecodeError::InvalidPayload("invalid content type"));
    };
    Ok(Metadata { ttl, stale_ttl, cost, tags, content_type })
}


fn decode_get(cursor: &mut Cursor) -> (r: Result<RequestPayload, DecodeError>)
    requires
        old(cursor).offset <= old(cursor).input@.len(),
    ensures
        final(cursor).input == old(cursor).input,
        final(cursor).offset <= final(cursor).input@.len(),
        match rd_request(Command::Get, old(cursor).input@, old(cursor).offset as int) {
            Ok((m, o)) => r matches Ok(x) && x@ == m && final(cursor).offset == o,
            Err(e) => r == Err::<RequestPayload, DecodeError>(e),
        },
{
    reveal(rd_request);
    let namespace = read_namespace(cursor)?;
    let key = cursor.read_bytes()?;
    Ok(RequestPayload::Get { namespace, key })
}

fn decode_delete(cursor: &mut Cursor) -> (r: Result<RequestPayload, DecodeError>)
    requires
        old(cursor).offset <= old(cursor).input@.len(),
    ensures
        final(cursor).input == old(cursor).input,
        final(cursor).offset <= final(cursor).input@.len(),
        match rd_request(Command::Delete, old(cursor).input@, old(cursor).offset as int) {
            Ok((m, o)) => r matches Ok(x) && x@ == m && final(cursor).offset == o,
            Err(e) => r == Err::<RequestPayload, DecodeError>(e),
        },
{
    reveal(rd_request);
    let namespace = read_namespace(cursor)?;
    let key = cursor.read_bytes()?;
    Ok(RequestPayload::Delete { namespace, key })
}

fn decode_put(cursor: &mut Cursor) -> (r: Result<RequestPayload, DecodeError>)
    requires
        old(cursor).offset <= old(cursor).input@.len(),
    ensures
        final(cursor).input == old(cursor).input,
        final(cursor).offset <= final(cursor).input@.len(),
        match rd_request(Command::Put, old(cursor).input@, old(cursor).offset as int) {
            Ok((m, o)) => r matches Ok(x) && x@ == m && final(cursor).offset == o,
            Err(e) => r == Err::<RequestPayload, DecodeError>(e),
        },
{
    reveal(rd_request);
    let namespace = read_namespace(cursor)?;
    let key = cursor.read_bytes()?;
    let metadata = read_metadata(cursor)?;
    let value = cursor.read_bytes()?;
    Ok(RequestPayload::Put { namespace, key, metadata, value })
}

fn decode_batch_get(cursor: &mut Cursor) -> (r: Result<RequestPayload, DecodeError>)
    requires
        old(cursor).offset <= old(cursor).input@.len(),
    ensures
        final(cursor).input == old(cursor).input,
        final(cursor).offset <= final(cursor).input@.len(),
        match rd_request(Command::BatchGet, old(cursor).input@, old(cursor).offset as int) {
            Ok((m, o)) => r matches Ok(x) && x@ == m && final(cursor).offset == o,
            Err(e) => r == Err::<RequestPayload, DecodeError>(e),
        },
{
    reveal(rd_request);
    let namespace = read_namespace(cursor)?;
    let key_count = cursor.read_u32()?;
    if key_count == 0 {
        return Err(DecodeError::InvalidPayload("batch get requires at least one key"));
    }
    let keys = read_byte_lists(cursor, key_count)?;
    Ok(RequestPayload::BatchGet { namespace, keys })
}

fn decode_tag_invalidate(cursor: &mut Cursor) -> (r: Result<RequestPayload, DecodeError>)
    requires
        old(cursor).offset <= old(cursor).input@.len(),
    ensures
        final(cursor).input == old(cursor).input,
        final(cursor).offset <= final(cursor).input@.len(),
        match rd_request(Command::TagInvalidate, old(cursor).input@, old(cursor).offset as int) {
            Ok((m, o)) => r matches Ok(x) && x@ == m && final(cursor).offset == o,
            Err(e) => r == Err::<RequestPayload, DecodeError>(e),
        },
{
    reveal(rd_request);
    let namespace = read_namespace(cursor)?;
    let tag = read_tag(cursor)?;
    Ok(RequestPayload::TagInvalidate { namespace, tag })
}

fn decode_lease_start(cursor: &mut Cursor) -> (r: Result<RequestPayload, DecodeError>)
    requires
        old(cursor).offset <= old(cursor).input@.len(),
    ensures
        final(cursor).input == old(cursor).input,
        final(cursor).offset <= final(cursor).input@.len(),
        match rd_request(Command::LeaseStart, old(cursor).input@, old(cursor).offset as int) {
            Ok((m, o)) => r matches Ok(x) && x@ == m && final(cursor).offset == o,
            Err(e) => r == Err::<RequestPayload, DecodeError>(e),
        },
{
    reveal(rd_request);
    let namespace = read_namespace(cursor)?;
    let key = cursor.read_bytes()?;
    let lease_ttl_ms = cursor.read_u64()?;
    if lease_ttl_ms == 0 {
        return Err(DecodeError::InvalidPayload("lease ttl must be greater than zero"));
    }
    let stale = cursor.read_u64()?;
    let allow_stale_ms = if stale == 0 {
        None
    } else {
        Some(stale)
    };
    Ok(RequestPayload::LeaseStart { namespace, key, lease_ttl_ms, allow_stale_ms })
}

fn decode_lease_complete(cursor: &mut Cursor) -> (r: Result<RequestPayload, DecodeError>)
    requires
        old(cursor).offset <= old(cursor).input@.len(),
    ensures
        final(cursor).input == old(cursor).input,
        final(cursor).offset <= final(cursor).input@.len(),
        match rd_request(Command::LeaseComplete, old(cursor).input@, old(cursor).offset as int) {
            Ok((m, o)) => r matches Ok(x) && x@ == m && final(cursor).offset == o,
            Err(e) => r == Err::<RequestPayload, DecodeError>(e),
        },
{
    reveal(rd_request);
    let namespace = read_namespace(cursor)?;
    let key = cursor.read_bytes()?;
    let lease_token = cursor.read_string()?;
    if lease_token.as_str().is_empty() {
        return Err(DecodeError::InvalidPayload("lease token must be non-empty"));
    }
    let metadata = read_metadata(cursor)?;
    let value = cursor.read_bytes()?;
    Ok(RequestPayload::LeaseComplete { namespace, key, lease_token, metadata, value })
}

fn decode_request_payload(command: Command, cursor: &mut Cursor) -> (r: Result<
    RequestPayload,
    DecodeError,
>)
    requires
        old(cursor).offset <= old(cursor).input@.len(),
    ensures
        final(cursor).input == old(cursor).input,
        final(cursor).offset <= final(cursor).input@.len(),
        match rd_request(command, old(cursor).input@, old(cursor).offset as int) {
            Ok((m, o)) => r matches Ok(x) && x@ == m && final(cursor).offset == o,
            Err(e) => r == Err::<RequestPayload, DecodeError>(e),
        },
{
    match command {
        Command::Get => decode_get(cursor),
        Command::Put => decode_put(cursor),
        Command::Delete => decode_delete(cursor),
        Command::BatchGet => decode_batch_get(cursor),
        Command::TagInvalidate => decode_tag_invalidate(cursor),
        Command::LeaseStart => decode_lease_start(cursor),
        Command::LeaseComplete => decode_lease_complete(cursor),
    }
}

fn read_batch_items(cursor: &mut Cursor, count: u32) -> (r: Result<Vec<BatchItem>, DecodeError>)
    requires
        old(cursor).offset <= old(cursor).input@.len(),
    ensures
        final(cursor).input == old(cursor).input,
        final(cursor).offset <= final(cursor).input@.len(),
        match rd_batch_items(old(cursor).input@, old(cursor).offset as int, count as nat) {
            Ok((b, o)) => r matches Ok(x) && x@.map_values(|i: BatchItem| i@) == b
                && final(cursor).offset == o,
            Err(e) => r == Err::<Vec<BatchItem>, DecodeError>(e),
        },
{
    let ghost p = cursor.input@;
    let ghost off0 = cursor.offset as int;
    let mut items: Vec<BatchItem> = Vec::new();
    let mut i: u32 = 0;
    assert(items@.map_values(|i: BatchItem| i@) =~= Seq::<BatchItemModel>::empty());
    assert(prepend_read(Seq::<BatchItemModel>::empty(), rd_batch_items(p, off0, count as nat))
        =~= rd_batch_items(p, off0, count as nat)) by {
        match rd_batch_items(p, off0, count as nat) {
            Ok((xs, o)) => {
                assert(Seq::<BatchItemModel>::empty() + xs =~= xs);
            },
            Err(e) => {},
        }
    }
    while i < count
        invariant
            cursor.input == old(cursor).input,
            cursor.input@ == p,
            off0 == old(cursor).offset,
            cursor.offset <= cursor.input@.len(),
            0 <= i <= count,
            items@.len() == i,
            rd_batch_items(p, off0, count as nat) == prepend_read(
                items@.map_values(|i: BatchItem| i@),
                rd_batch_items(p, cursor.offset as int, (count - i) as nat),
            ),
        decreases count - i,
    {
        let ghost acc = items@.map_values(|i: BatchItem| i@);
        let ghost cur = cursor.offset as int;
        let item = match read_batch_item(cursor) {
            Ok(t) => t,
            Err(e) => {
                assert(rd_batch_items(p, cur, (count - i) as nat) == Err::<
                    (Seq<BatchItemModel>, int),
                    DecodeError,
                >(e));
                assert(rd_batch_items(p, off0, count as nat) == Err::<
                    (Seq<BatchItemModel>, int),
                    DecodeError,
                >(e));
                return Err(e);
            },
        };
        proof {
            let t = item@;
            let rest = rd_batch_items(p, cursor.offset as int, (count - i - 1) as nat);
            assert(rd_batch_items(p, cur, (count - i) as nat) == match rest {
                Ok((bs, o2)) => Ok((seq![t] + bs, o2)),
                Err(e) => Err::<(Seq<BatchItemModel>, int), DecodeError>(e),
            });
            match rest {
                Ok((bs, o2)) => {
                    assert(acc + (seq![t] + bs) =~= acc.push(t) + bs);
                },
                Err(e) => {},
            }
        }
        items.push(item);
        assert(items@.map_values(|i: BatchItem| i@) =~= acc.push(items@[i as int]@));
        i = i + 1;
    }
    proof {
        let acc = items@.map_values(|i: BatchItem| i@);
        assert(acc + Seq::<BatchItemModel>::empty() =~= acc);
    }
    Ok(items)
}

fn read_batch_item(cursor: &mut Cursor) -> (r: Result<BatchItem, DecodeError>)
    requires
        old(cursor).offset <= old(cursor).input@.len(),
    ensures
        final(cursor).input == old(cursor).input,
        final(cursor).offset <= final(cursor).input@.len(),
        match rd_batch_item(old(cursor).input@, old(cursor).offset as int) {
            Ok((m, o)) => r matches Ok(x) && x@ == m && final(cursor).offset == o,
            Err(e) => r == Err::<BatchItem, DecodeError>(e),
        },
{
    let status = cursor.read_u8()?;
    if status == 0x01 {
        Ok(BatchItem::Hit(cursor.read_bytes()?))
    } else if status == 0x02 {
        Ok(BatchItem::Stale(cursor.read_bytes()?))
    } else if status == 0x03 {
        Ok(BatchItem::Miss)
    } else {
        Err(DecodeError::InvalidPayload("invalid batch item status"))
    }
}

fn decode_response_payload(command: Command, cursor: &mut Cursor) -> (r: Result<
    ResponsePayload,
    DecodeError,
>)
    requires
        old(cursor).offset <= old(cursor).input@.len(),
    ensures
        final(cursor).input == old(cursor).input,
        final(cursor).offset <= final(cursor).input@.len(),
        match rd_response(command, old(cursor).input@, old(cursor).offset as int) {
            Ok((m, o)) => r matches Ok(x) && x@ == m && final(cursor).offset == o,
            Err(e) => r == Err::<ResponsePayload, DecodeError>(e),
        },
{
    reveal(rd_response);
    let status = cursor.read_u8()?;
    if status == 0x00 && command == Command::BatchGet {
        let item_count = cursor.read_u32()?;
        let items = read_batch_items(cursor, item_count)?;
        Ok(ResponsePayload::BatchGet { items })
    } else if status == 0x00 {
        Ok(ResponsePayload::Ack)
    } else if status == 0x01 {
        Ok(ResponsePayload::Hit(cursor.read_bytes()?))
    } else if status == 0x02 {
        Ok(ResponsePayload::Stale(cursor.read_bytes()?))
    } else if status == 0x03 {
        Ok(ResponsePayload::Miss)
    } else if status == 0x04 {
        Ok(ResponsePayload::Stored { evicted: cursor.read_u32()? })
    } else if status == 0x05 {
        Ok(ResponsePayload::Deleted { removed: cursor.read_bool()? })
    } else if status == 0x06 {
        Ok(ResponsePayload::Invalidated { removed: cursor.read_u32()? })
    } else if status == 0x07 {
        let lease_token = cursor.read_string()?;
        let stale_value = if cursor.read_bool()? {
            Some(cursor.read_bytes()?)
        } else {
            None
        };
        Ok(ResponsePayload::LeaseGranted { lease_token, stale_value })
    } else if status == 0x08 {
        Ok(ResponsePayload::LeaseDenied)
    } else if status == 0xff {
        let id = cursor.read_u16()?;
        let code = ErrorCode::from_id(id)?;
        let message = cursor.read_string()?;
        Ok(ResponsePayload::Error { code, message })
    } else {
        Err(DecodeError::InvalidPayload("unknown response status"))
    }
}

fn decode_header(input: &[u8], max_payload_len: usize, expected_kind: u8) -> (r: Result<
    Header,
    DecodeError,
>)
    ensures
        r == dec_header(input@, max_payload_len, expected_kind),
        r is Ok ==> input@.len() >= 24,
{
    reveal(dec_header);
    if input.len() < HEADER_LEN {
        return Err(DecodeError::IncompleteHeader);
    }
    if !(input[0] == 0x43 && input[1] == 0x42 && input[2] == 0x58 && input[3] == 0x31) {
        return Err(DecodeError::BadMagic);
    }
    let version = input[4];
    if version != 1 {
        return Err(DecodeError::UnsupportedVersion(version));
    }
    let kind = input[5];
    if kind != expected_kind {
        return Err(DecodeError::InvalidKind(kind));
    }
    let command = input[6];
    let flags = input[7];
    if flags != 0 {
        return Err(DecodeError::NonzeroFlags(flags));
    }
    let ghost s = input@;
    let request_id = ((input[8] as u64) << 56u64) | ((input[9] as u64) << 48u64) | ((
    input[10] as u64) << 40u64) | ((input[11] as u64) << 32u64) | ((input[12] as u64) << 24u64)
        | ((input[13] as u64) << 16u64) | ((input[14] as u64) << 8u64) | (input[15] as u64);
    assert(request_id == u64_of_be(s.subrange(8, 16)));
    let len32 = ((input[16] as u32) << 24u32) | ((input[17] as u32) << 16u32) | ((
    input[18] as u32) << 8u32) | (input[19] as u32);
    assert(len32 == u32_of_be(s.subrange(16, 20)));
    let payload_len = len32 as usize;
    if payload_len > max_payload_len {
        return Err(DecodeError::FrameTooLarge { payload_len, max: max_payload_len });
    }
    let reserved = ((input[20] as u32) << 24u32) | ((input[21] as u32) << 16u32) | ((
    input[22] as u32) << 8u32) | (input[23] as u32);
    assert(reserved == u32_of_be(s.subrange(20, 24)));
    if reserved != 0 {
        return Err(DecodeError::NonzeroReserved(reserved));
    }
    Ok(Header { command, request_id, payload_len })
}

/// Decodes one request frame, owning its fields.
///
/// The frame must fill `input` exactly up to the end of its payload or
/// beyond; bytes after the payload are not examined.
pub fn decode_request_frame(input: &[u8], max_payload_len: usize) -> (r: Result<
    RequestFrame,
    DecodeError,
>)
    ensures
        match dec_request_frame(input@, max_payload_len) {
            Ok(m) => r matches Ok(f) && f@ == m,
            Err(e) => r == Err::<RequestFrame, DecodeError>(e),
        },
{
    let header = decode_header(input, max_payload_len, KIND_REQUEST)?;
    if input.len() - HEADER_LEN < header.payload_len {
        return Err(
            DecodeError::TruncatedPayload {
                expected: HEADER_LEN.wrapping_add(header.payload_len),
                actual: input.len(),
            },
        );
    }
    let payload_end = HEADER_LEN + header.payload_len;
    let command = Command::from_id(header.command)?;
    let mut cursor = Cursor::new(&input[HEADER_LEN..payload_end]);
    let payload = decode_request_payload(command, &mut cursor)?;
    cursor.expect_empty()?;
    Ok(RequestFrame { request_id: header.request_id, command, payload })
}

/// Decodes one request frame, borrowing its fields from `input`, for the
/// commands that have a borrowed form; `Ok(None)` for the others.
pub fn decode_borrowed_request_frame(input: &[u8], max_payload_len: usize) -> (r: Result<
    Option<RequestFrameView<'_>>,
    DecodeError,
>)
    ensures
        match dec_borrowed_request_frame(input@, max_payload_len) {
            Ok(Some(m)) => r matches Ok(Some(f)) && f@ == m,
            Ok(None) => r matches Ok(None),
            Err(e) => r == Err::<Option<RequestFrameView<'_>>, DecodeError>(e),
        },
{
    reveal(rd_request);
    let header = decode_header(input, max_payload_len, KIND_REQUEST)?;
    if input.len() - HEADER_LEN < header.payload_len {
        return Err(
            DecodeError::TruncatedPayload {
                expected: HEADER_LEN.wrapping_add(header.payload_len),
                actual: input.len(),
            },
        );
    }
    let payload_end = HEADER_LEN + header.payload_len;
    let command = Command::from_id(header.command)?;
    let mut cursor = Cursor::new(&input[HEADER_LEN..payload_end]);
    let payload = match command {
        Command::Get => {
            let namespace = read_borrowed_namespace(&mut cursor)?;
            let key = cursor.read_borrowed_bytes()?;
            Some(RequestPayloadView::Get { namespace, key })
        },
        Command::Delete => {
            let namespace = read_borrowed_namespace(&mut cursor)?;
            let key = cursor.read_borrowed_bytes()?;
            Some(RequestPayloadView::Delete { namespace, key })
        },
        Command::TagInvalidate => {
            let namespace = read_borrowed_namespace(&mut cursor)?;
            let tag = read_borrowed_tag(&mut cursor)?;
            Some(RequestPayloadView::TagInvalidate { namespace, tag })
        },
        Command::LeaseStart => {
            let namespace = read_borrowed_namespace(&mut cursor)?;
            let key = cursor.read_borrowed_bytes()?;
            let lease_ttl_ms = cursor.read_u64()?;
            if lease_ttl_ms == 0 {
                return Err(DecodeError::InvalidPayload("lease ttl must be greater than zero"));
            }
            let stale = cursor.read_u64()?;
            let allow_stale_ms = if stale == 0 {
                None
            } else {
                Some(stale)
            };
            Some(RequestPayloadView::LeaseStart { namespace, key, lease_ttl_ms, allow_stale_ms })
        },
        Command::Put | Command::BatchGet | Command::LeaseComplete => None,
    };
    match payload {
        Some(payload) => {
            cursor.expect_empty()?;
            Ok(Some(RequestFrameView { request_id: header.request_id, command, payload }))
        },
        None => Ok(None),
    }
}

/// Decodes one response frame.
pub fn decode_response_frame(input: &[u8], max_payload_len: usize) -> (r: Result<
    ResponseFrame,
    DecodeError,
>)
    ensures
        match dec_response_frame(input@, max_payload_len) {
            Ok(m) => r matches Ok(f) && f@ == m,
            Err(e) => r == Err::<ResponseFrame, DecodeError>(e),
        },
{
    let header = decode_header(input, max_payload_len, KIND_RESPONSE)?;
    if input.len() - HEADER_LEN < header.payload_len {
        return Err(
            DecodeError::TruncatedPayload {
                expected: HEADER_LEN.wrapping_add(header.payload_len),
                actual: input.len(),
            },
        );
    }
    let payload_end = HEADER_LEN + header.payload_len;
    let command = Command::from_id(header.command)?;
    let mut cursor = Cursor::new(&input[HEADER_LEN..payload_end]);
    let payload = decode_response_payload(command, &mut cursor)?;
    cursor.expect_empty()?;
    Ok(ResponseFrame { request_id: header.request_id, command, payload })
}

} // verus!
