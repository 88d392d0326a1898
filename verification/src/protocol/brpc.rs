//! The tag-delimited protocol variant with routing metadata.
//!
//! A frame is a 12-byte header — the four ASCII tag bytes `PRPC`, a
//! big-endian `body_size`, and a big-endian `meta_size` — followed by
//! `body_size` bytes of body, of which the first `meta_size` bytes are the
//! routing-metadata segment and the rest the opaque payload. `body_size`
//! always counts metadata and payload together, so a header declaring
//! `body_size < meta_size` cannot be a frame of this protocol and is judged
//! foreign before any of its body is touched. The tag is checked byte by
//! byte as data arrives, so a foreign prefix is rejected as soon as the
//! first differing byte shows up.
//!
//! This variant routes by name: an instance holds many services, and the
//! request metadata says which service and method a payload is meant for.
use vstd::prelude::*;

use crate::error::{Error, ParseErr, SvcErr};
use crate::message::CommonMsg;
use crate::meta::{decode_request_meta, encode_response_meta, req_meta_ok, req_meta_service,
    req_meta_method, resp_meta_enc, ResponseMeta};
use crate::protocol::{FrameStep, PollStep};
use crate::service::Service;
use crate::wire::{be_u32, bytes_eq, copy_range, push_bytes, push_u32_be, u32_be, u32_from_be,
    lemma_u32_be_round};

verus! {

/// The size of the frame header in bytes.
pub const BRPC_HEADER_SIZE: usize = 12;

/// The four tag bytes that open every frame: ASCII `PRPC`.
pub open spec fn brpc_tag() -> Seq<u8> {
    seq![0x50u8, 0x52u8, 0x50u8, 0x43u8]
}

/// The `i`-th tag byte.
fn tag_byte(i: usize) -> (b: u8)
    requires
        i < 4,
    ensures
        b == brpc_tag()[i as int],
{
    if i == 0 {
        0x50
    } else if i == 1 {
        0x52
    } else if i == 2 {
        0x50
    } else {
        0x43
    }
}

/// Some already-received byte of the tag region differs from the tag.
pub open spec fn tag_mismatch(b: Seq<u8>) -> bool {
    exists|i: int| 0 <= i < b.len() && i < 4 && b[i] != brpc_tag()[i]
}

/// The parse decision over the bytes accumulated so far.
///
/// A tag mismatch is foreign as soon as it is visible, however few bytes
/// have arrived. With a full header, a declared body smaller than its
/// metadata is foreign too; otherwise the frame completes once `body_size`
/// bytes follow the header, and the body splits into metadata and payload
/// at `meta_size`.
pub open spec fn brpc_step(b: Seq<u8>) -> FrameStep {
    if tag_mismatch(b) {
        FrameStep::Foreign
    } else if b.len() < BRPC_HEADER_SIZE {
        FrameStep::Incomplete
    } else {
        let body = be_u32(b.subrange(4, 8)) as int;
        let meta = be_u32(b.subrange(8, 12)) as int;
        if body < meta {
            FrameStep::Foreign
        } else if b.len() < BRPC_HEADER_SIZE + body {
            FrameStep::Incomplete
        } else {
            FrameStep::Complete {
                meta: b.subrange(12, 12 + meta),
                payload: b.subrange(12 + meta, 12 + body),
            }
        }
    }
}

/// A prefix that has already diverged from the tag is foreign.
pub proof fn lemma_brpc_foreign(b: Seq<u8>)
    requires
        tag_mismatch(b),
    ensures
        brpc_step(b) == FrameStep::Foreign,
{
}

/// A full header whose declared body is smaller than its declared metadata
/// is foreign: no byte of its body is ever interpreted.
pub proof fn lemma_brpc_size_invariant(b: Seq<u8>)
    requires
        !tag_mismatch(b),
        b.len() >= BRPC_HEADER_SIZE,
        be_u32(b.subrange(4, 8)) < be_u32(b.subrange(8, 12)),
    ensures
        brpc_step(b) == FrameStep::Foreign,
{
}

/// Once the parse decision is made, later bytes cannot change it: appending
/// to a judged prefix leaves both the judgement and the decoded frame as
/// they were.
pub proof fn lemma_brpc_step_extend(b: Seq<u8>, more: Seq<u8>)
    requires
        !(brpc_step(b) is Incomplete),
    ensures
        brpc_step(b + more) == brpc_step(b),
{
    let c = b + more;
    if tag_mismatch(b) {
        let i = choose|i: int| 0 <= i < b.len() && i < 4 && b[i] != brpc_tag()[i];
        assert(c[i] == b[i]);
        assert(tag_mismatch(c));
    } else {
        assert(b.len() >= BRPC_HEADER_SIZE);
        assert(!tag_mismatch(c)) by {
            assert(forall|i: int| 0 <= i < 4 ==> c[i] == b[i]);
        }
        assert(c.subrange(4, 8) =~= b.subrange(4, 8));
        assert(c.subrange(8, 12) =~= b.subrange(8, 12));
        let body = be_u32(b.subrange(4, 8)) as int;
        let meta = be_u32(b.subrange(8, 12)) as int;
        if body >= meta {
            assert(b.len() >= BRPC_HEADER_SIZE + body);
            assert(c.subrange(12, 12 + meta) =~= b.subrange(12, 12 + meta));
            assert(c.subrange(12 + meta, 12 + body) =~= b.subrange(12 + meta, 12 + body));
        }
    }
}

/// A whole outbound frame for the given metadata and payload.
pub open spec fn brpc_frame(meta: Seq<u8>, payload: Seq<u8>) -> Seq<u8>
    recommends
        meta.len() + payload.len() <= u32::MAX,
{
    brpc_tag() + u32_be((meta.len() + payload.len()) as u32) + u32_be(meta.len() as u32) + meta
        + payload
}

/// Round trip: a packed frame parses back to exactly the metadata and
/// payload it was built from.
pub proof fn lemma_brpc_round_trip(meta: Seq<u8>, payload: Seq<u8>)
    requires
        meta.len() + payload.len() <= u32::MAX,
    ensures
        brpc_step(brpc_frame(meta, payload)) == (FrameStep::Complete { meta, payload }),
{
    let f = brpc_frame(meta, payload);
    let body = (meta.len() + payload.len()) as u32;
    let ms = meta.len() as u32;
    assert(f.len() == 12 + meta.len() + payload.len());
    assert(!tag_mismatch(f)) by {
        assert(forall|i: int| 0 <= i < 4 ==> f[i] == brpc_tag()[i]);
    }
    assert(f.subrange(4, 8) =~= u32_be(body));
    assert(f.subrange(8, 12) =~= u32_be(ms));
    lemma_u32_be_round(body);
    lemma_u32_be_round(ms);
    assert(f.subrange(12, 12 + ms as int) =~= meta);
    assert(f.subrange(12 + ms as int, 12 + body as int) =~= payload);
}

/// The 12-byte frame header. The tag bytes are fixed and implicit; only the
/// two size fields vary.
#[derive(Debug, Clone, Copy, PartialEq, Eq, Structural)]
pub struct Header {
    /// Length of the whole body: metadata and payload together.
    pub body_size: u32,
    /// Length of the metadata segment at the front of the body.
    pub meta_size: u32,
}

/// The wire image of a header: the tag, then both sizes big-endian.
pub open spec fn header_bytes(h: Header) -> Seq<u8> {
    brpc_tag() + u32_be(h.body_size) + u32_be(h.meta_size)
}

impl Header {
    /// A header for a body of `payload_size` payload bytes behind
    /// `meta_size` metadata bytes.
    pub fn new(payload_size: u32, meta_size: u32) -> (h: Header)
        requires
            payload_size + meta_size <= u32::MAX,
        ensures
            h.body_size == meta_size + payload_size,
            h.meta_size == meta_size,
    {
        Header { body_size: meta_size + payload_size, meta_size }
    }

    /// Decodes the size fields from the first 12 bytes of `buf`; the tag
    /// region is not inspected here.
    pub fn from_u8_slice(buf: &[u8]) -> (h: Header)
        requires
            buf@.len() >= BRPC_HEADER_SIZE,
        ensures
            h.body_size == be_u32(buf@.subrange(4, 8)),
            h.meta_size == be_u32(buf@.subrange(8, 12)),
    {
        Header {
            body_size: u32_from_be(buf, 4),
            meta_size: u32_from_be(buf, 8),
        }
    }

    /// Serializes the header into its 12-byte wire image.
    pub fn as_u8_slice(&self) -> (out: Vec<u8>)
        ensures
            out@ == header_bytes(*self),
    {
        let mut out: Vec<u8> = Vec::new();
        out.push(tag_byte(0));
        out.push(tag_byte(1));
        out.push(tag_byte(2));
        out.push(tag_byte(3));
        push_u32_be(&mut out, self.body_size);
        push_u32_be(&mut out, self.meta_size);
        assert(out@ =~= header_bytes(*self));
        out
    }
}

/// The tagged protocol instance: a registry of named services.
pub struct Brpc<S: Service> {
    /// The registered services, in registration order, names unique.
    pub services: Vec<(Vec<u8>, S)>,
}

impl<S: Service> Brpc<S> {
    /// Registered names are pairwise distinct.
    pub open spec fn wf(&self) -> bool {
        forall|i: int, j: int|
            0 <= i < j < self.services@.len() ==> self.services@[i].0@ != self.services@[j].0@
    }

    /// Whether a service of this name is registered.
    pub open spec fn registered(&self, name: Seq<u8>) -> bool {
        exists|i: int| 0 <= i < self.services@.len() && self.services@[i].0@ == name
    }

    /// An instance with no services registered.
    pub fn new() -> (p: Self)
        ensures
            p.services@.len() == 0,
            p.wf(),
    {
        Brpc { services: Vec::new() }
    }

    /// The index of the named service, if registered.
    fn find(&self, name: &[u8]) -> (r: Option<usize>)
        ensures
            r matches Some(i) ==> i < self.services@.len() && self.services@[i as int].0@
                == name@,
            r is None ==> !self.registered(name@),
    {
        let mut i: usize = 0;
        while i < self.services.len()
            invariant
                i <= self.services@.len(),
                forall|j: int| 0 <= j < i ==> self.services@[j].0@ != name@,
            decreases self.services@.len() - i,
        {
            if bytes_eq(self.services[i].0.as_slice(), name) {
                return Some(i);
            }
            i = i + 1;
        }
        None
    }

    /// Registers a service under a name. A second registration of the same
    /// name fails with `SvcErr::Exist` and leaves the registry unchanged;
    /// a fresh name is appended, and every other registration is kept.
    pub fn add_service(&mut self, svc_name: Vec<u8>, svc: S) -> (r: Result<(), Error>)
        requires
            old(self).wf(),
        ensures
            final(self).wf(),
            old(self).registered(svc_name@) ==> *final(self) == *old(self) && (r matches Err(
                Error::Svc(SvcErr::Exist(n)),
            ) && n@ == svc_name@),
            !old(self).registered(svc_name@) ==> r is Ok && final(self).services@ == old(
                self,
            ).services@.push((svc_name, svc)),
            !old(self).registered(svc_name@) ==> forall|n: Seq<u8>|
                #[trigger] final(self).registered(n) == (old(self).registered(n) || n
                    == svc_name@),
    {
        if self.find(svc_name.as_slice()).is_some() {
            return Err(Error::Svc(SvcErr::Exist(svc_name)));
        }
        let ghost pre = *self;
        let ghost gname = svc_name@;
        self.services.push((svc_name, svc));
        proof {
            let last = self.services@.len() - 1;
            assert forall|n: Seq<u8>| #[trigger] self.registered(n) == (pre.registered(n) || n
                == gname) by {
                if self.registered(n) {
                    let w = choose|w: int|
                        0 <= w < self.services@.len() && self.services@[w].0@ == n;
                    if w < last {
                        assert(pre.services@[w].0@ == n);
                    }
                }
                if pre.registered(n) {
                    let w = choose|w: int|
                        0 <= w < pre.services@.len() && pre.services@[w].0@ == n;
                    assert(self.services@[w].0@ == n);
                }
                if n == gname {
                    assert(self.services@[last].0@ == n);
                }
            }
        }
        Ok(())
    }

    /// Feeds one chunk of stream bytes to the incremental parser.
    ///
    /// `buf` accumulates everything fed so far; the decision returned is a
    /// pure function of the accumulated bytes, so any chunking of the same
    /// byte sequence leads to the same decoded frame.
    pub fn parse(&self, buf: &mut Vec<u8>, chunk: &[u8]) -> (r: PollStep)
        ensures
            final(buf)@ == old(buf)@ + chunk@,
            (r is NeedMore) == (brpc_step(final(buf)@) is Incomplete),
            (r is Reject) == (brpc_step(final(buf)@) is Foreign),
            r matches PollStep::Frame(m) ==> brpc_step(final(buf)@) == (FrameStep::Complete {
                meta: m.meta@,
                payload: m.payload@,
            }),
    {
        push_bytes(buf, chunk);
        let lim = if buf.len() < 4 {
            buf.len()
        } else {
            4
        };
        let mut i: usize = 0;
        while i < lim
            invariant
                buf@ == old(buf)@ + chunk@,
                lim == if buf@.len() < 4 {
                    buf@.len() as int
                } else {
                    4
                },
                i <= lim,
                forall|j: int| 0 <= j < i ==> buf@[j] == brpc_tag()[j],
            decreases lim - i,
        {
            if buf[i] != tag_byte(i) {
                assert(tag_mismatch(buf@));
                return PollStep::Reject;
            }
            i = i + 1;
        }
        assert(!tag_mismatch(buf@));
        if buf.len() < BRPC_HEADER_SIZE {
            return PollStep::NeedMore;
        }
        let head = Header::from_u8_slice(buf.as_slice());
        if head.body_size < head.meta_size {
            return PollStep::Reject;
        }
        let body = head.body_size as usize;
        let meta = head.meta_size as usize;
        if buf.len() - BRPC_HEADER_SIZE < body {
            return PollStep::NeedMore;
        }
        let meta_bytes = copy_range(buf.as_slice(), BRPC_HEADER_SIZE, BRPC_HEADER_SIZE + meta);
        let payload = copy_range(
            buf.as_slice(),
            BRPC_HEADER_SIZE + meta,
            BRPC_HEADER_SIZE + body,
        );
        let mut msg = CommonMsg::new(payload);
        msg.with_meta(meta_bytes);
        PollStep::Frame(msg)
    }

    /// Parses one frame out of `data`, delivered in chunks of `chunk_size`
    /// bytes, as a stream would deliver them; `data` running out stands for
    /// the peer closing.
    ///
    /// The result does not depend on `chunk_size`: it is determined by the
    /// parse decision over `data` alone.
    pub fn parse_all(&self, data: &[u8], chunk_size: usize) -> (r: Result<CommonMsg, Error>)
        requires
            chunk_size >= 1,
        ensures
            r matches Ok(m) ==> brpc_step(data@) == (FrameStep::Complete {
                meta: m.meta@,
                payload: m.payload@,
            }),
            r == Err::<CommonMsg, Error>(Error::Parse(ParseErr::TryOther)) <==> brpc_step(data@)
                is Foreign,
            r == Err::<CommonMsg, Error>(Error::Parse(ParseErr::UnexpectedEof)) <==> brpc_step(
                data@,
            ) is Incomplete,
            (r is Ok) <==> brpc_step(data@) is Complete,
    {
        let mut buf: Vec<u8> = Vec::new();
        let mut pos: usize = 0;
        loop
            invariant
                pos <= data@.len(),
                buf@ == data@.subrange(0, pos as int),
                brpc_step(buf@) is Incomplete,
                chunk_size >= 1,
            decreases data@.len() - pos,
        {
            let end = if data.len() - pos < chunk_size {
                data.len()
            } else {
                pos + chunk_size
            };
            let step = self.parse(&mut buf, &data[pos..end]);
            proof {
                assert(buf@ =~= data@.subrange(0, end as int));
            }
            let fed_to_end = end == data.len();
            pos = end;
            match step {
                PollStep::NeedMore => {
                    if fed_to_end {
                        proof {
                            assert(buf@ =~= data@);
                        }
                        return Err(Error::Parse(ParseErr::UnexpectedEof));
                    }
                },
                PollStep::Reject => {
                    proof {
                        lemma_brpc_step_extend(buf@, data@.subrange(pos as int, data@.len() as int));
                        assert(buf@ + data@.subrange(pos as int, data@.len() as int) =~= data@);
                    }
                    return Err(Error::Parse(ParseErr::TryOther));
                },
                PollStep::Frame(m) => {
                    proof {
                        lemma_brpc_step_extend(buf@, data@.subrange(pos as int, data@.len() as int));
                        assert(buf@ + data@.subrange(pos as int, data@.len() as int) =~= data@);
                    }
                    return Ok(m);
                },
            }
        }
    }

    /// Routes a decoded request: the metadata names the service and method,
    /// the named service runs the method on the payload, and the reply is
    /// wrapped with fresh success metadata.
    ///
    /// Metadata that does not decode fails with a metadata error; a request
    /// naming an unregistered service fails with `SvcErr::NotExist` carrying
    /// that name. When the named service is registered, whatever error its
    /// method returns propagates unchanged.
    pub fn process_request(&self, msg: CommonMsg) -> (r: Result<CommonMsg, Error>)
        ensures
            !req_meta_ok(msg.meta@) ==> r matches Err(Error::Meta(_)),
            req_meta_ok(msg.meta@) && !self.registered(req_meta_service(msg.meta@)) ==> (r
                matches Err(Error::Svc(SvcErr::NotExist(n))) && n@ == req_meta_service(msg.meta@)),
            req_meta_ok(msg.meta@) && self.registered(req_meta_service(msg.meta@)) ==> (r
                matches Ok(m) ==> m.meta@ == resp_meta_enc(0)),
    {
        let rm = match decode_request_meta(msg.meta.as_slice()) {
            Ok(rm) => rm,
            Err(e) => {
                return Err(Error::Meta(e));
            },
        };
        let idx = match self.find(rm.service_name.as_slice()) {
            Some(idx) => idx,
            None => {
                return Err(Error::Svc(SvcErr::NotExist(rm.service_name)));
            },
        };
        let pair = &self.services[idx];
        let reply = match pair.1.call_method(rm.method_name.as_slice(), msg.payload.as_slice()) {
            Ok(reply) => reply,
            Err(e) => {
                return Err(e);
            },
        };
        let meta = encode_response_meta(&ResponseMeta { error_code: 0 });
        let mut out = CommonMsg::new(reply);
        out.with_meta(meta);
        Ok(out)
    }

    /// Frames a response: the header, with both sizes recomputed from the
    /// message, followed by the serialized body.
    pub fn pack_response(&self, msg: CommonMsg) -> (out: Vec<u8>)
        requires
            msg.body().len() <= u32::MAX,
        ensures
            out@ == brpc_frame(msg.meta@, msg.payload@),
    {
        let ghost gmeta = msg.meta@;
        let ghost gpayload = msg.payload@;
        let head = Header::new(msg.payload_size(), msg.meta_size());
        let mut out = head.as_u8_slice();
        let body = msg.to_vec();
        push_bytes(&mut out, body.as_slice());
        assert(out@ =~= brpc_frame(gmeta, gpayload));
        out
    }

    /// Frames a request; the layout is the same as for a response.
    pub fn pack_request(&self, msg: CommonMsg) -> (out: Vec<u8>)
        requires
            msg.body().len() <= u32::MAX,
        ensures
            out@ == brpc_frame(msg.meta@, msg.payload@),
    {
        let ghost gmeta = msg.meta@;
        let ghost gpayload = msg.payload@;
        let head = Header::new(msg.payload_size(), msg.meta_size());
        let mut out = head.as_u8_slice();
        let body = msg.to_vec();
        push_bytes(&mut out, body.as_slice());
        assert(out@ =~= brpc_frame(gmeta, gpayload));
        out
    }

    /// Strips the envelope from a decoded response: the payload is the
    /// application's answer.
    pub fn process_response(&self, msg: CommonMsg) -> (r: Result<Vec<u8>, Error>)
        ensures
            r matches Ok(p) ==> p == msg.payload,
            r is Ok,
    {
        Ok(msg.payload)
    }
}

} // verus!
