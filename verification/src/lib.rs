//! An RPC substrate: binary wire-protocol codecs (a fixed-header format and a
//! tag-delimited format with routing metadata), an incremental message framer
//! that tolerates partial reads, and a service registry that dispatches a
//! decoded request to the named service method and frames the response.
//!
//! The codecs and the dispatcher are pure functions of the bytes fed to them;
//! all I/O (sockets, configuration files) lives outside this crate and hands
//! in plain byte chunks.
use vstd::prelude::*;

pub mod conf;
pub mod error;
pub mod message;
pub mod meta;
pub mod protocol;
pub mod service;
pub mod wire;

verus! {

} // verus!
