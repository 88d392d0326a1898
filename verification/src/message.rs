//! The protocol-independent message container.
//!
//! A `CommonMsg` holds an opaque application payload and an optional routing
//! metadata segment. On the wire the two travel as one body, metadata first;
//! the body size a header declares always counts both together.
use vstd::prelude::*;

use crate::wire::push_bytes;

verus! {

/// A decoded message: a metadata segment (possibly empty) and a payload.
#[derive(Debug)]
pub struct CommonMsg {
    pub meta: Vec<u8>,
    pub payload: Vec<u8>,
}

impl Default for CommonMsg {
    /// The empty message: no metadata, no payload.
    fn default() -> (msg: Self)
        ensures
            msg.meta@ == Seq::<u8>::empty(),
            msg.payload@ == Seq::<u8>::empty(),
    {
        CommonMsg { meta: Vec::new(), payload: Vec::new() }
    }
}

impl CommonMsg {
    /// The serialized body: metadata followed by payload.
    pub open spec fn body(&self) -> Seq<u8> {
        self.meta@ + self.payload@
    }

    /// A message with the given payload and no metadata.
    pub fn new(payload: Vec<u8>) -> (msg: Self)
        ensures
            msg.meta@ == Seq::<u8>::empty(),
            msg.payload == payload,
    {
        Self { meta: Vec::new(), payload }
    }

    /// Replaces the metadata segment.
    pub fn with_meta(&mut self, meta: Vec<u8>)
        ensures
            final(self).meta == meta,
            final(self).payload == old(self).payload,
    {
        self.meta = meta;
    }

    /// Replaces the payload.
    pub fn with_payload(&mut self, payload: Vec<u8>)
        ensures
            final(self).meta == old(self).meta,
            final(self).payload == payload,
    {
        self.payload = payload;
    }

    /// Serializes the message into one buffer: metadata, then payload.
    pub fn to_vec(self) -> (out: Vec<u8>)
        ensures
            out@ == self.body(),
    {
        if self.meta.len() == 0 {
            assert(self.meta@ + self.payload@ =~= self.payload@);
            self.payload
        } else {
            let mut out = self.meta;
            push_bytes(&mut out, self.payload.as_slice());
            out
        }
    }

    /// The metadata segment's length, as the wire carries it.
    pub fn meta_size(&self) -> (n: u32)
        requires
            self.meta@.len() <= u32::MAX,
        ensures
            n == self.meta@.len(),
    {
        self.meta.len() as u32
    }

    /// The payload's length, as the wire carries it.
    pub fn payload_size(&self) -> (n: u32)
        requires
            self.payload@.len() <= u32::MAX,
        ensures
            n == self.payload@.len(),
    {
        self.payload.len() as u32
    }

    /// The full body length: metadata and payload together.
    pub fn body_size(&self) -> (n: u32)
        requires
            self.meta@.len() + self.payload@.len() <= u32::MAX,
        ensures
            n == self.body().len(),
    {
        self.meta_size() + self.payload_size()
    }
}

} // verus!
