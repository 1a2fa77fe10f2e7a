//! Native socket protocol frame codec.
//!
//! Transport-independent: byte buffers become native cache requests, and
//! native responses become byte buffers.
//!
//! A frame is a 24-byte header (magic `CBX1`, version, kind, command, flags,
//! request id, payload length, reserved) followed by the payload. Integers
//! are big-endian; byte strings and text carry a 32-bit length prefix.

use vstd::prelude::*;
use vstd::utf8::*;
use crate::api::{ContentType, Ttl};
use crate::bytes::text_bytes;

verus! {

broadcast use vstd::utf8::group_utf8_lib;

pub const MAGIC: [u8; 4] = [0x43, 0x42, 0x58, 0x31];
pub const VERSION: u8 = 1;
pub const HEADER_LEN: usize = 24;

pub const KIND_REQUEST: u8 = 0x00;
pub const KIND_RESPONSE: u8 = 0x01;

#[derive(Debug, Clone, Copy, PartialEq, Eq, Structural)]
pub enum Command {
    Get,
    Put,
    Delete,
    BatchGet,
    TagInvalidate,
    LeaseStart,
    LeaseComplete,
}

/// The wire id of each command.
pub open spec fn command_id(c: Command) -> u8 {
    match c {
        Command::Get => 0x01,
        Command::Put => 0x02,
        Command::Delete => 0x03,
        Command::BatchGet => 0x04,
        Command::TagInvalidate => 0x05,
        Command::LeaseStart => 0x06,
        Command::LeaseComplete => 0x07,
    }
}

/// The command with a wire id, if any.
pub open spec fn command_of_id(id: u8) -> Option<Command> {
    if id == 0x01 {
        Some(Command::Get)
    } else if id == 0x02 {
        Some(Command::Put)
    } else if id == 0x03 {
        Some(Command::Delete)
    } else if id == 0x04 {
        Some(Command::BatchGet)
    } else if id == 0x05 {
        Some(Command::TagInvalidate)
    } else if id == 0x06 {
        Some(Command::LeaseStart)
    } else if id == 0x07 {
        Some(Command::LeaseComplete)
    } else {
        None
    }
}

impl Command {
    pub fn id(self) -> (r: u8)
        ensures
            r == command_id(self),
    {
        match self {
            Command::Get => 0x01,
            Command::Put => 0x02,
            Command::Delete => 0x03,
            Command::BatchGet => 0x04,
            Command::TagInvalidate => 0x05,
            Command::LeaseStart => 0x06,
            Command::LeaseComplete => 0x07,
        }
    }

    pub fn from_id(id: u8) -> (r: Result<Command, DecodeError>)
        ensures
            match command_of_id(id) {
                Some(c) => r == Ok::<Command, DecodeError>(c),
                None => r == Err::<Command, DecodeError>(DecodeError::UnknownCommand(id)),
            },
    {
        match id {
            0x01 => Ok(Command::Get),
            0x02 => Ok(Command::Put),
            0x03 => Ok(Command::Delete),
            0x04 => Ok(Command::BatchGet),
            0x05 => Ok(Command::TagInvalidate),
            0x06 => Ok(Command::LeaseStart),
            0x07 => Ok(Command::LeaseComplete),
            _ => Err(DecodeError::UnknownCommand(id)),
        }
    }
}

/// Every command's id maps back to the command.
pub proof fn lemma_command_id_round_trip(c: Command)
    ensures
        command_of_id(command_id(c)) == Some(c),
{
}

#[derive(Debug, Clone, PartialEq, Eq)]
pub struct RequestFrame {
    pub request_id: u64,
    pub command: Command,
    pub payload: RequestPayload,
}

#[derive(Debug, Clone, Copy, PartialEq, Eq)]
pub struct RequestFrameView<'a> {
    pub request_id: u64,
    pub command: Command,
    pub payload: RequestPayloadView<'a>,
}

#[derive(Debug, Clone, PartialEq, Eq)]
pub enum RequestPayload {
    Get { namespace: String, key: Vec<u8> },
    Put { namespace: String, key: Vec<u8>, metadata: Metadata, value: Vec<u8> },
    Delete { namespace: String, key: Vec<u8> },
    BatchGet { namespace: String, keys: Vec<Vec<u8>> },
    TagInvalidate { namespace: String, tag: String },
    LeaseStart { namespace: String, key: Vec<u8>, lease_ttl_ms: u64, allow_stale_ms: Option<u64> },
    LeaseComplete {
        namespace: String,
        key: Vec<u8>,
        lease_token: String,
        metadata: Metadata,
        value: Vec<u8>,
    },
}

#[derive(Debug, Clone, Copy, PartialEq, Eq)]
pub enum RequestPayloadView<'a> {
    Get { namespace: &'a str, key: &'a [u8] },
    Delete { namespace: &'a str, key: &'a [u8] },
    TagInvalidate { namespace: &'a str, tag: &'a str },
    LeaseStart {
        namespace: &'a str,
        key: &'a [u8],
        lease_ttl_ms: u64,
        allow_stale_ms: Option<u64>,
    },
}

#[derive(Debug, Clone, PartialEq, Eq)]
pub struct Metadata {
    pub ttl: Option<Ttl>,
    pub stale_ttl: Option<Ttl>,
    pub cost: Option<u64>,
    pub tags: Vec<String>,
    pub content_type: ContentType,
}

impl Default for Metadata {
    fn default() -> (r: Self)
        ensures
            r@ == (MetadataModel {
                ttl: None,
                stale_ttl: None,
                cost: None,
                tags: Seq::empty(),
                content_type: ContentType::OctetStream,
            }),
    {
        let r = Metadata {
            ttl: None,
            stale_ttl: None,
            cost: None,
            tags: Vec::new(),
            content_type: ContentType::OctetStream,
        };
        assert(r@.tags =~= Seq::<Seq<u8>>::empty());
        r
    }
}

#[derive(Debug, Clone, PartialEq, Eq)]
pub struct ResponseFrame {
    pub request_id: u64,
    pub command: Command,
    pub payload: ResponsePayload,
}

#[derive(Debug, Clone, PartialEq, Eq)]
pub enum ResponsePayload {
    Ack,
    Hit(Vec<u8>),
    Stale(Vec<u8>),
    Miss,
    Stored { evicted: u32 },
    Deleted { removed: bool },
    Invalidated { removed: u32 },
    LeaseGranted { lease_token: String, stale_value: Option<Vec<u8>> },
    LeaseDenied,
    Error { code: ErrorCode, message: String },
    BatchGet { items: Vec<BatchItem> },
}

#[derive(Debug, Clone, PartialEq, Eq)]
pub enum BatchItem {
    Hit(Vec<u8>),
    Stale(Vec<u8>),
    Miss,
}

#[derive(Debug, Clone, Copy, PartialEq, Eq)]
pub enum ResponsePayloadView<'a> {
    Hit(&'a [u8]),
    Stale(&'a [u8]),
    Miss,
}

#[derive(Debug, Clone, Copy, PartialEq, Eq, Structural)]
pub enum ErrorCode {
    BadFrame,
    UnsupportedVersion,
    UnknownCommand,
    InvalidNamespace,
    InvalidTag,
    InvalidTtl,
    ValueTooLarge,
    EntryTooLarge,
    InsufficientMemory,
    InvalidLeaseToken,
    FrameTooLarge,
}

/// The wire id of each error code.
pub open spec fn error_code_id(c: ErrorCode) -> u16 {
    match c {
        ErrorCode::BadFrame => 0x0001,
        ErrorCode::UnsupportedVersion => 0x0002,
        ErrorCode::UnknownCommand => 0x0003,
        ErrorCode::InvalidNamespace => 0x0004,
        ErrorCode::InvalidTag => 0x0005,
        ErrorCode::InvalidTtl => 0x0006,
        ErrorCode::ValueTooLarge => 0x0007,
        ErrorCode::EntryTooLarge => 0x0008,
        ErrorCode::InsufficientMemory => 0x0009,
        ErrorCode::InvalidLeaseToken => 0x000a,
        ErrorCode::FrameTooLarge => 0x000b,
    }
}

/// The error code with a wire id, if any.
pub open spec fn error_code_of_id(id: u16) -> Option<ErrorCode> {
    if id == 0x0001 {
        Some(ErrorCode::BadFrame)
    } else if id == 0x0002 {
        Some(ErrorCode::UnsupportedVersion)
    } else if id == 0x0003 {
        Some(ErrorCode::UnknownCommand)
    } else if id == 0x0004 {
        Some(ErrorCode::InvalidNamespace)
    } else if id == 0x0005 {
        Some(ErrorCode::InvalidTag)
    } else if id == 0x0006 {
        Some(ErrorCode::InvalidTtl)
    } else if id == 0x0007 {
        Some(ErrorCode::ValueTooLarge)
    } else if id == 0x0008 {
        Some(ErrorCode::EntryTooLarge)
    } else if id == 0x0009 {
        Some(ErrorCode::InsufficientMemory)
    } else if id == 0x000a {
        Some(ErrorCode::InvalidLeaseToken)
    } else if id == 0x000b {
        Some(ErrorCode::FrameTooLarge)
    } else {
        None
    }
}

impl ErrorCode {
    pub fn id(self) -> (r: u16)
        ensures
            r == error_code_id(self),
    {
        match self {
            ErrorCode::BadFrame => 0x0001,
            ErrorCode::UnsupportedVersion => 0x0002,
            ErrorCode::UnknownCommand => 0x0003,
            ErrorCode::InvalidNamespace => 0x0004,
            ErrorCode::InvalidTag => 0x0005,
            ErrorCode::InvalidTtl => 0x0006,
            ErrorCode::ValueTooLarge => 0x0007,
            ErrorCode::EntryTooLarge => 0x0008,
            ErrorCode::InsufficientMemory => 0x0009,
            ErrorCode::InvalidLeaseToken => 0x000a,
            ErrorCode::FrameTooLarge => 0x000b,
        }
    }

    pub fn from_id(id: u16) -> (r: Result<ErrorCode, DecodeError>)
        ensures
            match error_code_of_id(id) {
                Some(c) => r == Ok::<ErrorCode, DecodeError>(c),
                None => r == Err::<ErrorCode, DecodeError>(
                    DecodeError::InvalidPayload("unknown error code"),
                ),
            },
    {
        match id {
            0x0001 => Ok(ErrorCode::BadFrame),
            0x0002 => Ok(ErrorCode::UnsupportedVersion),
            0x0003 => Ok(ErrorCode::UnknownCommand),
            0x0004 => Ok(ErrorCode::InvalidNamespace),
            0x0005 => Ok(ErrorCode::InvalidTag),
            0x0006 => Ok(ErrorCode::InvalidTtl),
            0x0007 => Ok(ErrorCode::ValueTooLarge),
            0x0008 => Ok(ErrorCode::EntryTooLarge),
            0x0009 => Ok(ErrorCode::InsufficientMemory),
            0x000a => Ok(ErrorCode::InvalidLeaseToken),
            0x000b => Ok(ErrorCode::FrameTooLarge),
            _ => Err(DecodeError::InvalidPayload("unknown error code")),
        }
    }
}

#[derive(Debug, Clone, PartialEq, Eq)]
pub enum DecodeError {
    IncompleteHeader,
    BadMagic,
    UnsupportedVersion(u8),
    InvalidKind(u8),
    UnknownCommand(u8),
    NonzeroFlags(u8),
    NonzeroReserved(u32),
    FrameTooLarge { payload_len: usize, max: usize },
    TruncatedPayload { expected: usize, actual: usize },
    InvalidPayload(&'static str),
    InvalidUtf8,
    InvalidNamespace,
    InvalidTag,
    InvalidBool(u8),
    TrailingBytes(usize),
}

// ---------------------------------------------------------------------------
// Mathematical models of the frame types. Text is modelled by its UTF-8 bytes.
// ---------------------------------------------------------------------------

pub struct MetadataModel {
    pub ttl: Option<Ttl>,
    pub stale_ttl: Option<Ttl>,
    pub cost: Option<u64>,
    pub tags: Seq<Seq<u8>>,
    pub content_type: ContentType,
}

pub enum RequestModel {
    Get { namespace: Seq<u8>, key: Seq<u8> },
    Put { namespace: Seq<u8>, key: Seq<u8>, metadata: MetadataModel, value: Seq<u8> },
    Delete { namespace: Seq<u8>, key: Seq<u8> },
    BatchGet { namespace: Seq<u8>, keys: Seq<Seq<u8>> },
    TagInvalidate { namespace: Seq<u8>, tag: Seq<u8> },
    LeaseStart { namespace: Seq<u8>, key: Seq<u8>, lease_ttl_ms: u64, allow_stale_ms: Option<u64> },
    LeaseComplete {
        namespace: Seq<u8>,
        key: Seq<u8>,
        lease_token: Seq<u8>,
        metadata: MetadataModel,
        value: Seq<u8>,
    },
}

pub struct RequestFrameModel {
    pub request_id: u64,
    pub command: Command,
    pub payload: RequestModel,
}

pub enum BatchItemModel {
    Hit(Seq<u8>),
    Stale(Seq<u8>),
    Miss,
}

pub enum ResponseModel {
    Ack,
    Hit(Seq<u8>),
    Stale(Seq<u8>),
    Miss,
    Stored { evicted: u32 },
    Deleted { removed: bool },
    Invalidated { removed: u32 },
    LeaseGranted { lease_token: Seq<u8>, stale_value: Option<Seq<u8>> },
    LeaseDenied,
    Error { code: ErrorCode, message: Seq<u8> },
    BatchGet { items: Seq<BatchItemModel> },
}

pub struct ResponseFrameModel {
    pub request_id: u64,
    pub command: Command,
    pub payload: ResponseModel,
}

/// The model of a list of texts: each one's UTF-8 bytes.
pub open spec fn texts_model(v: Seq<String>) -> Seq<Seq<u8>> {
    v.map_values(|t: String| text_bytes(t@))
}

/// The model of a list of byte strings.
pub open spec fn byte_lists_model(v: Seq<Vec<u8>>) -> Seq<Seq<u8>> {
    v.map_values(|k: Vec<u8>| k@)
}

impl View for Metadata {
    type V = MetadataModel;

    open spec fn view(&self) -> MetadataModel {
        MetadataModel {
            ttl: self.ttl,
            stale_ttl: self.stale_ttl,
            cost: self.cost,
            tags: texts_model(self.tags@),
            content_type: self.content_type,
        }
    }
}

impl View for RequestPayload {
    type V = RequestModel;

    open spec fn view(&self) -> RequestModel {
        match self {
            RequestPayload::Get { namespace, key } => RequestModel::Get {
                namespace: text_bytes(namespace@),
                key: key@,
            },
            RequestPayload::Put { namespace, key, metadata, value } => RequestModel::Put {
                namespace: text_bytes(namespace@),
                key: key@,
                metadata: metadata@,
                value: value@,
            },
            RequestPayload::Delete { namespace, key } => RequestModel::Delete {
                namespace: text_bytes(namespace@),
                key: key@,
            },
            RequestPayload::BatchGet { namespace, keys } => RequestModel::BatchGet {
                namespace: text_bytes(namespace@),
                keys: byte_lists_model(keys@),
            },
            RequestPayload::TagInvalidate { namespace, tag } => RequestModel::TagInvalidate {
                namespace: text_bytes(namespace@),
                tag: text_bytes(tag@),
            },
            RequestPayload::LeaseStart { namespace, key, lease_ttl_ms, allow_stale_ms } =>
                RequestModel::LeaseStart {
                namespace: text_bytes(namespace@),
                key: key@,
                lease_ttl_ms: *lease_ttl_ms,
                allow_stale_ms: *allow_stale_ms,
            },
            RequestPayload::LeaseComplete { namespace, key, lease_token, metadata, value } =>
                RequestModel::LeaseComplete {
                namespace: text_bytes(namespace@),
                key: key@,
                lease_token: text_bytes(lease_token@),
                metadata: metadata@,
                value: value@,
            },
        }
    }
}

impl View for RequestFrame {
    type V = RequestFrameModel;

    open spec fn view(&self) -> RequestFrameModel {
        RequestFrameModel { request_id: self.request_id, command: self.command, payload: self.payload@ }
    }
}

impl<'a> View for RequestPayloadView<'a> {
    type V = RequestModel;

    open spec fn view(&self) -> RequestModel {
        match self {
            RequestPayloadView::Get { namespace, key } => RequestModel::Get {
                namespace: text_bytes(namespace@),
                key: key@,
            },
            RequestPayloadView::Delete { namespace, key } => RequestModel::Delete {
                namespace: text_bytes(namespace@),
                key: key@,
            },
            RequestPayloadView::TagInvalidate { namespace, tag } => RequestModel::TagInvalidate {
                namespace: text_bytes(namespace@),
                tag: text_bytes(tag@),
            },
            RequestPayloadView::LeaseStart { namespace, key, lease_ttl_ms, allow_stale_ms } =>
                RequestModel::LeaseStart {
                namespace: text_bytes(namespace@),
                key: key@,
                lease_ttl_ms: *lease_ttl_ms,
                allow_stale_ms: *allow_stale_ms,
            },
        }
    }
}

impl<'a> View for RequestFrameView<'a> {
    type V = RequestFrameModel;

    open spec fn view(&self) -> RequestFrameModel {
        RequestFrameModel { request_id: self.request_id, command: self.command, payload: self.payload@ }
    }
}

impl View for BatchItem {
    type V = BatchItemModel;

    open spec fn view(&self) -> BatchItemModel {
        match self {
            BatchItem::Hit(v) => BatchItemModel::Hit(v@),
            BatchItem::Stale(v) => BatchItemModel::Stale(v@),
            BatchItem::Miss => BatchItemModel::Miss,
        }
    }
}

/// The model of a list of batch items.
pub open spec fn batch_items_model(v: Seq<BatchItem>) -> Seq<BatchItemModel> {
    v.map_values(|i: BatchItem| i@)
}

impl View for ResponsePayload {
    type V = ResponseModel;

    open spec fn view(&self) -> ResponseModel {
        match self {
            ResponsePayload::Ack => ResponseModel::Ack,
            ResponsePayload::Hit(v) => ResponseModel::Hit(v@),
            ResponsePayload::Stale(v) => ResponseModel::Stale(v@),
            ResponsePayload::Miss => ResponseModel::Miss,
            ResponsePayload::Stored { evicted } => ResponseModel::Stored { evicted: *evicted },
            ResponsePayload::Deleted { removed } => ResponseModel::Deleted { removed: *removed },
            ResponsePayload::Invalidated { removed } => ResponseModel::Invalidated {
                removed: *removed,
            },
            ResponsePayload::LeaseGranted { lease_token, stale_value } =>
                ResponseModel::LeaseGranted {
                lease_token: text_bytes(lease_token@),
                stale_value: match stale_value {
                    Some(v) => Some(v@),
                    None => None,
                },
            },
            ResponsePayload::LeaseDenied => ResponseModel::LeaseDenied,
            ResponsePayload::Error { code, message } => ResponseModel::Error {
                code: *code,
                message: text_bytes(message@),
            },
            ResponsePayload::BatchGet { items } => ResponseModel::BatchGet {
                items: batch_items_model(items@),
            },
        }
    }
}

impl View for ResponseFrame {
    type V = ResponseFrameModel;

    open spec fn view(&self) -> ResponseFrameModel {
        ResponseFrameModel { request_id: self.request_id, command: self.command, payload: self.payload@ }
    }
}

impl<'a> View for ResponsePayloadView<'a> {
    type V = ResponseModel;

    open spec fn view(&self) -> ResponseModel {
        match self {
            ResponsePayloadView::Hit(v) => ResponseModel::Hit(v@),
            ResponsePayloadView::Stale(v) => ResponseModel::Stale(v@),
            ResponsePayloadView::Miss => ResponseModel::Miss,
        }
    }
}

} // verus!
