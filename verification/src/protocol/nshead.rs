//! The fixed-header protocol variant.
//!
//! A frame is a 36-byte header followed by `body_size` bytes of opaque
//! payload. The header carries a magic number that identifies the protocol;
//! a full header whose magic number differs is judged foreign, so a
//! dispatcher can offer the same bytes to another protocol. The variant
//! carries no routing metadata: an instance binds exactly one service and
//! every request goes to it.
//!
//! All multi-byte header fields are big-endian on the wire. (The layout
//! predates this codec; it left the byte order to the machine, which is not
//! portable, so big-endian is fixed here explicitly.)
use vstd::prelude::*;

use crate::error::{Error, ParseErr, SvcErr};
use crate::message::CommonMsg;
use crate::protocol::{FrameStep, PollStep};
use crate::service::Service;
use crate::wire::{be_u16, be_u32, copy_range, push_bytes, push_u16_be, push_u32_be, u16_be,
    u32_be, u32_from_be, lemma_u32_be_round};

verus! {

/// The magic number every frame of this protocol carries.
pub const NSHEAD_MAGICNUM: u32 = 0xfb709394;

/// The size of the fixed header in bytes.
pub const NSHEAD_SIZE: usize = 36;

/// The fixed 36-byte frame header.
///
/// `id`, `version`, `log_id`, `provider` and `reserved` are carried but not
/// interpreted; only `magic_num` and `body_size` drive framing decisions.
#[derive(Debug, Clone, Copy)]
pub struct Header {
    pub id: u16,
    pub version: u16,
    pub log_id: u32,
    pub provider: [u8; 16],
    pub magic_num: u32,
    pub reserved: u32,
    pub body_size: u32,
}

/// The wire image of a header: every field big-endian, in declaration order.
pub open spec fn header_bytes(h: Header) -> Seq<u8> {
    u16_be(h.id) + u16_be(h.version) + u32_be(h.log_id) + h.provider@ + u32_be(h.magic_num)
        + u32_be(h.reserved) + u32_be(h.body_size)
}

/// Sixteen zero bytes: the provider tag of a locally built header.
pub open spec fn zero_provider() -> Seq<u8> {
    Seq::new(16, |i: int| 0u8)
}

/// The wire image of the header this side builds: all unused fields zero,
/// the magic number set, and the given body length.
pub open spec fn packed_header(n: u32) -> Seq<u8> {
    u16_be(0) + u16_be(0) + u32_be(0) + zero_provider() + u32_be(NSHEAD_MAGICNUM) + u32_be(0)
        + u32_be(n)
}

/// A whole outbound frame for the given body.
pub open spec fn nshead_pack(body: Seq<u8>) -> Seq<u8>
    recommends
        body.len() <= u32::MAX,
{
    packed_header(body.len() as u32) + body
}

/// The parse decision over the bytes accumulated so far.
///
/// With fewer than 36 bytes nothing can be judged yet. With a full header,
/// a wrong magic number makes the bytes foreign; otherwise the frame is
/// complete once `body_size` bytes follow the header. The payload is
/// everything the header declared, and the metadata segment is empty: this
/// variant does not carry one.
pub open spec fn nshead_step(b: Seq<u8>) -> FrameStep {
    if b.len() < NSHEAD_SIZE {
        FrameStep::Incomplete
    } else if be_u32(b.subrange(24, 28)) != NSHEAD_MAGICNUM {
        FrameStep::Foreign
    } else {
        let n = be_u32(b.subrange(32, 36)) as int;
        if b.len() < NSHEAD_SIZE + n {
            FrameStep::Incomplete
        } else {
            FrameStep::Complete {
                meta: Seq::<u8>::empty(),
                payload: b.subrange(36, 36 + n),
            }
        }
    }
}

/// A full header whose magic number does not match is foreign.
pub proof fn lemma_nshead_foreign(b: Seq<u8>)
    requires
        b.len() >= NSHEAD_SIZE,
        be_u32(b.subrange(24, 28)) != NSHEAD_MAGICNUM,
    ensures
        nshead_step(b) == FrameStep::Foreign,
{
}

/// Once the parse decision is made, later bytes cannot change it: appending
/// to a judged prefix leaves both the judgement and the decoded frame as
/// they were. This is what makes parsing insensitive to read chunking.
pub proof fn lemma_nshead_step_extend(b: Seq<u8>, more: Seq<u8>)
    requires
        !(nshead_step(b) is Incomplete),
    ensures
        nshead_step(b + more) == nshead_step(b),
{
    let c = b + more;
    assert(c.subrange(24, 28) =~= b.subrange(24, 28));
    assert(c.subrange(32, 36) =~= b.subrange(32, 36));
    if be_u32(b.subrange(24, 28)) == NSHEAD_MAGICNUM {
        let n = be_u32(b.subrange(32, 36)) as int;
        assert(b.len() >= NSHEAD_SIZE + n);
        assert(c.subrange(36, 36 + n) =~= b.subrange(36, 36 + n));
    }
}

/// Round trip: a packed frame parses back to exactly the body it was built
/// from, with no metadata.
pub proof fn lemma_nshead_round_trip(body: Seq<u8>)
    requires
        body.len() <= u32::MAX,
    ensures
        nshead_step(nshead_pack(body)) == (FrameStep::Complete {
            meta: Seq::<u8>::empty(),
            payload: body,
        }),
{
    let n = body.len() as u32;
    let h = packed_header(n);
    let f = nshead_pack(body);
    assert(h.len() == 36);
    assert(f.len() == 36 + body.len());
    assert(f.subrange(24, 28) =~= u32_be(NSHEAD_MAGICNUM));
    assert(f.subrange(32, 36) =~= u32_be(n));
    lemma_u32_be_round(NSHEAD_MAGICNUM);
    lemma_u32_be_round(n);
    assert(f.subrange(36, 36 + n as int) =~= body);
}

impl Header {
    /// A header with the magic number set, the given body length, and every
    /// unused field zero.
    pub fn default_with_len(body_len: u32) -> (h: Header)
        ensures
            h.id == 0 && h.version == 0 && h.log_id == 0 && h.reserved == 0,
            h.provider@ == zero_provider(),
            h.magic_num == NSHEAD_MAGICNUM,
            h.body_size == body_len,
            header_bytes(h) == packed_header(body_len),
    {
        let h = Header {
            id: 0,
            version: 0,
            log_id: 0,
            provider: [0u8; 16],
            magic_num: NSHEAD_MAGICNUM,
            reserved: 0,
            body_size: body_len,
        };
        proof {
            assert(h.provider@ =~= zero_provider());
        }
        h
    }

    /// Decodes a header from the first 36 bytes of `bytes`.
    pub fn from_u8_slice(bytes: &[u8]) -> (h: Header)
        requires
            bytes@.len() >= NSHEAD_SIZE,
        ensures
            h.id == be_u16(bytes@.subrange(0, 2)),
            h.version == be_u16(bytes@.subrange(2, 4)),
            h.log_id == be_u32(bytes@.subrange(4, 8)),
            h.provider@ == bytes@.subrange(8, 24),
            h.magic_num == be_u32(bytes@.subrange(24, 28)),
            h.reserved == be_u32(bytes@.subrange(28, 32)),
            h.body_size == be_u32(bytes@.subrange(32, 36)),
    {
        let mut provider: [u8; 16] = [0u8; 16];
        let mut i: usize = 0;
        while i < 16
            invariant
                i <= 16,
                bytes@.len() >= NSHEAD_SIZE,
                forall|j: int| 0 <= j < i ==> provider@[j] == bytes@[8 + j],
            decreases 16 - i,
        {
            provider[i] = bytes[8 + i];
            i = i + 1;
        }
        proof {
            assert(provider@ =~= bytes@.subrange(8, 24));
        }
        Header {
            id: crate::wire::u16_from_be(bytes, 0),
            version: crate::wire::u16_from_be(bytes, 2),
            log_id: u32_from_be(bytes, 4),
            provider,
            magic_num: u32_from_be(bytes, 24),
            reserved: u32_from_be(bytes, 28),
            body_size: u32_from_be(bytes, 32),
        }
    }

    /// Serializes the header into its 36-byte wire image.
    pub fn as_u8_slice(&self) -> (out: Vec<u8>)
        ensures
            out@ == header_bytes(*self),
    {
        let mut out: Vec<u8> = Vec::new();
        push_u16_be(&mut out, self.id);
        push_u16_be(&mut out, self.version);
        push_u32_be(&mut out, self.log_id);
        push_bytes(&mut out, self.provider.as_slice());
        push_u32_be(&mut out, self.magic_num);
        push_u32_be(&mut out, self.reserved);
        push_u32_be(&mut out, self.body_size);
        assert(out@ =~= header_bytes(*self));
        out
    }
}

impl Default for Header {
    /// The header this side starts from: magic number set, all else zero.
    fn default() -> (h: Header)
        ensures
            h.magic_num == NSHEAD_MAGICNUM,
            h.body_size == 0,
            header_bytes(h) == packed_header(0),
    {
        Header::default_with_len(0)
    }
}

/// The fixed-header protocol instance: at most one bound service.
///
/// The method name is not carried on the wire, so every request this
/// instance accepts is routed to the single service, whatever method the
/// caller had in mind.
pub struct Nshead<S: Service> {
    /// The bound service and the name it was registered under.
    pub svc: Option<(Vec<u8>, S)>,
}

impl<S: Service> Nshead<S> {
    /// Whether a service is bound.
    pub open spec fn has_service(&self) -> bool {
        self.svc is Some
    }

    /// An instance with no service bound yet.
    pub fn new() -> (p: Self)
        ensures
            p.svc is None,
    {
        Nshead { svc: None }
    }

    /// Binds a service. The variant holds a single service, so a second
    /// registration fails with `SvcErr::Exist` naming the service already
    /// bound, and leaves the instance unchanged.
    pub fn add_service(&mut self, svc_name: Vec<u8>, svc: S) -> (r: Result<(), Error>)
        ensures
            old(self).svc is None ==> r is Ok && final(self).svc == Some((svc_name, svc)),
            old(self).svc is Some ==> *final(self) == *old(self) && (r matches Err(
                Error::Svc(SvcErr::Exist(n)),
            ) && n@ == old(self).svc.unwrap().0@),
    {
        match &self.svc {
            Some(pair) => {
                let existing = pair.0.clone();
                Err(Error::Svc(SvcErr::Exist(existing)))
            },
            None => {
                self.svc = Some((svc_name, svc));
                Ok(())
            },
        }
    }

    /// Feeds one chunk of stream bytes to the incremental parser.
    ///
    /// `buf` accumulates everything fed so far; the decision returned is a
    /// pure function of the accumulated bytes, so any chunking of the same
    /// byte sequence leads to the same decoded frame.
    pub fn parse(&self, buf: &mut Vec<u8>, chunk: &[u8]) -> (r: PollStep)
        ensures
            final(buf)@ == old(buf)@ + chunk@,
            (r is NeedMore) == (nshead_step(final(buf)@) is Incomplete),
            (r is Reject) == (nshead_step(final(buf)@) is Foreign),
            r matches PollStep::Frame(m) ==> nshead_step(final(buf)@) == (FrameStep::Complete {
                meta: m.meta@,
                payload: m.payload@,
            }),
    {
        push_bytes(buf, chunk);
        if buf.len() < NSHEAD_SIZE {
            return PollStep::NeedMore;
        }
        let magic = u32_from_be(buf.as_slice(), 24);
        if magic != NSHEAD_MAGICNUM {
            return PollStep::Reject;
        }
        let n = u32_from_be(buf.as_slice(), 32) as usize;
        if buf.len() - NSHEAD_SIZE < n {
            return PollStep::NeedMore;
        }
        let payload = copy_range(buf.as_slice(), NSHEAD_SIZE, NSHEAD_SIZE + n);
        PollStep::Frame(CommonMsg::new(payload))
    }

    /// Parses one frame out of `data`, delivered in chunks of `chunk_size`
    /// bytes, as a stream would deliver them; `data` running out stands for
    /// the peer closing.
    ///
    /// The result does not depend on `chunk_size`: it is determined by the
    /// parse decision over `data` alone.
    pub fn parse_all(&self, data: &[u8], chunk_size: usize) -> (r: Result<CommonMsg, Error>)
        requires
            chunk_size >= 1,
        ensures
            r matches Ok(m) ==> nshead_step(data@) == (FrameStep::Complete {
                meta: m.meta@,
                payload: m.payload@,
            }),
            r == Err::<CommonMsg, Error>(Error::Parse(ParseErr::TryOther)) <==> nshead_step(data@)
                is Foreign,
            r == Err::<CommonMsg, Error>(Error::Parse(ParseErr::UnexpectedEof)) <==> nshead_step(
                data@,
            ) is Incomplete,
            (r is Ok) <==> nshead_step(data@) is Complete,
    {
        let mut buf: Vec<u8> = Vec::new();
        let mut pos: usize = 0;
        loop
            invariant
                pos <= data@.len(),
                buf@ == data@.subrange(0, pos as int),
                nshead_step(buf@) is Incomplete,
                chunk_size >= 1,
            decreases data@.len() - pos,
        {
            let end = if data.len() - pos < chunk_size {
                data.len()
            } else {
                pos + chunk_size
            };
            let step = self.parse(&mut buf, &data[pos..end]);
            proof {
                assert(buf@ =~= data@.subrange(0, end as int));
            }
            let fed_to_end = end == data.len();
            pos = end;
            match step {
                PollStep::NeedMore => {
                    if fed_to_end {
                        proof {
                            assert(buf@ =~= data@);
                        }
                        return Err(Error::Parse(ParseErr::UnexpectedEof));
                    }
                },
                PollStep::Reject => {
                    proof {
                        lemma_nshead_step_extend(buf@, data@.subrange(pos as int, data@.len() as int));
                        assert(buf@ + data@.subrange(pos as int, data@.len() as int) =~= data@);
                    }
                    return Err(Error::Parse(ParseErr::TryOther));
                },
                PollStep::Frame(m) => {
                    proof {
                        lemma_nshead_step_extend(buf@, data@.subrange(pos as int, data@.len() as int));
                        assert(buf@ + data@.subrange(pos as int, data@.len() as int) =~= data@);
                    }
                    return Ok(m);
                },
            }
        }
    }

    /// Routes a decoded request to the bound service, ignoring any method
    /// name: the wire does not carry one. The reply payload comes back as a
    /// response message without metadata.
    pub fn process_request(&self, msg: CommonMsg) -> (r: Result<CommonMsg, Error>)
        requires
            self.has_service(),
        ensures
            r matches Ok(m) ==> m.meta@.len() == 0,
    {
        let pair = self.svc.as_ref().unwrap();
        let method: [u8; 0] = [];
        let reply = match pair.1.call_method(method.as_slice(), msg.payload.as_slice()) {
            Ok(reply) => reply,
            Err(e) => {
                return Err(e);
            },
        };
        Ok(CommonMsg::new(reply))
    }

    /// Frames a response: the fixed header, with the body length recomputed
    /// from the message, followed by the serialized message.
    pub fn pack_response(&self, msg: CommonMsg) -> (out: Vec<u8>)
        requires
            msg.body().len() <= u32::MAX,
        ensures
            out@ == nshead_pack(msg.body()),
    {
        let body = msg.to_vec();
        let head = Header::default_with_len(body.len() as u32);
        let mut out = head.as_u8_slice();
        push_bytes(&mut out, body.as_slice());
        out
    }

    /// Frames a request; the layout is the same as for a response.
    pub fn pack_request(&self, msg: CommonMsg) -> (out: Vec<u8>)
        requires
            msg.body().len() <= u32::MAX,
        ensures
            out@ == nshead_pack(msg.body()),
    {
        let body = msg.to_vec();
        let head = Header::default_with_len(body.len() as u32);
        let mut out = head.as_u8_slice();
        push_bytes(&mut out, body.as_slice());
        out
    }

    /// Strips the envelope from a decoded response: the payload is the
    /// application's answer.
    pub fn process_response(&self, msg: CommonMsg) -> (r: Result<Vec<u8>, Error>)
        ensures
            r matches Ok(p) ==> p == msg.payload,
            r is Ok,
    {
        Ok(msg.payload)
    }
}

} // verus!
