//! Cachebox: an in-memory cache with TTLs, stale reads, tags, leases and a
//! compact binary wire protocol.

pub mod api;
pub mod config;
pub mod operation;
pub mod bytes;
pub mod names;
pub mod protocol;
pub mod encode;
pub mod decode;
pub mod codec_laws;
pub mod seqs;
pub mod text;
pub mod engine;
pub mod engine_laws;
pub mod accounting;
pub mod sharded;
pub mod native;
pub mod json;
pub mod ai;
pub mod ai_laws;
pub mod frames;
pub mod native_laws;
pub mod directory;
pub mod client;
pub mod bench;
