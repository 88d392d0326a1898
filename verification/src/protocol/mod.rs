//! The wire-protocol codecs.
//!
//! Each protocol decides, from the bytes accumulated so far, one of three
//! things: the frame is still incomplete, the bytes belong to some other
//! protocol, or a complete frame is present. `FrameStep` states that decision
//! at the specification level; `PollStep` is what the incremental parsers
//! return at run time. Feeding a parser is a pure function of the
//! concatenation of everything fed so far, which is what makes parsing
//! insensitive to how a stream splits its reads.
use vstd::prelude::*;

use crate::message::CommonMsg;

pub mod brpc;
pub mod nshead;

verus! {

/// The specification-level parse decision over an accumulated byte prefix.
pub enum FrameStep {
    /// More bytes are needed before the frame can be judged.
    Incomplete,
    /// The leading bytes cannot be a frame of this protocol.
    Foreign,
    /// A complete frame is present, with this metadata and payload.
    Complete { meta: Seq<u8>, payload: Seq<u8> },
}

/// What an incremental parser reports after a chunk has been fed.
pub enum PollStep {
    /// The frame is still incomplete; feed more bytes.
    NeedMore,
    /// The bytes belong to another protocol; try the next candidate.
    Reject,
    /// A complete frame was decoded.
    Frame(CommonMsg),
}

} // verus!
