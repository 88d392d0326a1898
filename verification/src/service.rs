//! Services and the per-process registry that dispatches to them.
//!
//! A service exposes a name and a `call_method` operation; user code supplies
//! the implementations. The registry maps each protocol variant to the
//! services registered under it, is populated during a single-writer startup
//! phase, and is read-only while connections are being served.
use vstd::prelude::*;

use crate::error::{Error, ParseErr, SvcErr};
use crate::protocol::brpc::{brpc_frame, brpc_step, Brpc};
use crate::protocol::nshead::{nshead_pack, nshead_step, Nshead};
use crate::protocol::{FrameStep, PollStep};

verus! {

/// The closed set of wire protocols the dispatcher knows how to frame.
#[derive(Debug, Clone, Copy, PartialEq, Eq, Structural)]
pub enum ProtocolKind {
    /// The fixed-header, single-service variant.
    Nshead,
    /// The tag-delimited variant with routing metadata.
    Brpc,
}

/// Identifies a service within a protocol's registry.
#[derive(Debug, Clone)]
pub struct ServiceDescriptor {
    /// The protocol variant the service answers under.
    pub protocol: ProtocolKind,
    /// The fully-qualified service name, as the wire carries it.
    pub full_name: Vec<u8>,
}

/// A named bundle of methods that requests can be dispatched to.
///
/// Implementations are supplied by the user of the library; nothing is
/// assumed about what `call_method` returns.
pub trait Service: Sized {
    /// Where this service wants to be registered.
    fn descriptor(&self) -> ServiceDescriptor;

    /// Runs the named method on the request payload and returns the reply
    /// payload.
    fn call_method(&self, method_name: &[u8], req: &[u8]) -> Result<Vec<u8>, Error>;
}

/// One registered protocol instance, with the services bound under it.
pub enum ProtocolInst<S: Service> {
    NsheadInst(Nshead<S>),
    BrpcInst(Brpc<S>),
}

impl<S: Service> ProtocolInst<S> {
    /// Which protocol variant this instance speaks.
    pub open spec fn kind(&self) -> ProtocolKind {
        match self {
            ProtocolInst::NsheadInst(_) => ProtocolKind::Nshead,
            ProtocolInst::BrpcInst(_) => ProtocolKind::Brpc,
        }
    }

    /// The instance is ready to serve: a fixed-header instance always has
    /// its one service, and a tagged instance has unique names.
    pub open spec fn wf(&self) -> bool {
        match self {
            ProtocolInst::NsheadInst(p) => p.has_service(),
            ProtocolInst::BrpcInst(b) => b.wf(),
        }
    }

    /// The parse decision this instance's protocol makes on a byte prefix.
    pub open spec fn step_of(&self, b: Seq<u8>) -> FrameStep {
        match self {
            ProtocolInst::NsheadInst(_) => nshead_step(b),
            ProtocolInst::BrpcInst(_) => brpc_step(b),
        }
    }

    /// Whether a service of this name is reachable through this instance.
    pub open spec fn holds_name(&self, n: Seq<u8>) -> bool {
        match self {
            ProtocolInst::NsheadInst(p) => p.svc is Some && p.svc.unwrap().0@ == n,
            ProtocolInst::BrpcInst(b) => b.registered(n),
        }
    }

    /// Which protocol variant this instance speaks (run-time counterpart
    /// of `kind`).
    pub fn kind_exec(&self) -> (k: ProtocolKind)
        ensures
            k == self.kind(),
    {
        match self {
            ProtocolInst::NsheadInst(_) => ProtocolKind::Nshead,
            ProtocolInst::BrpcInst(_) => ProtocolKind::Brpc,
        }
    }
}

/// Lifts the per-protocol extension lemmas to an instance: once a byte
/// prefix is judged, later bytes cannot change the judgement.
pub proof fn lemma_inst_step_extend<S: Service>(inst: ProtocolInst<S>, b: Seq<u8>, more: Seq<u8>)
    requires
        !(inst.step_of(b) is Incomplete),
    ensures
        inst.step_of(b + more) == inst.step_of(b),
{
    match inst {
        ProtocolInst::NsheadInst(_) => crate::protocol::nshead::lemma_nshead_step_extend(b, more),
        ProtocolInst::BrpcInst(_) => crate::protocol::brpc::lemma_brpc_step_extend(b, more),
    }
}

/// The registry: one instance per protocol variant, each holding its
/// services. Built during a single-writer startup phase and treated as
/// read-only while serving.
pub struct ServiceManger<S: Service> {
    /// The registered protocol instances, in registration order.
    pub protocols: Vec<ProtocolInst<S>>,
}

impl<S: Service> ServiceManger<S> {
    /// Each protocol variant appears at most once, and every instance is
    /// ready to serve.
    pub open spec fn wf(&self) -> bool {
        &&& forall|i: int, j: int|
            0 <= i < j < self.protocols@.len() ==> self.protocols@[i].kind()
                != self.protocols@[j].kind()
        &&& forall|i: int| 0 <= i < self.protocols@.len() ==> (#[trigger] self.protocols@[i]).wf()
    }

    /// Whether a service of this name is reachable under this protocol
    /// variant.
    pub open spec fn registered(&self, k: ProtocolKind, n: Seq<u8>) -> bool {
        exists|i: int|
            0 <= i < self.protocols@.len() && (#[trigger] self.protocols@[i]).kind() == k
                && self.protocols@[i].holds_name(n)
    }

    /// Whether registering name `n` under variant `k` would collide: the
    /// fixed-header variant holds a single service, so any second
    /// registration collides; the tagged variant collides only on an equal
    /// name.
    pub open spec fn conflict(&self, k: ProtocolKind, n: Seq<u8>) -> bool {
        match k {
            ProtocolKind::Nshead => exists|i: int|
                0 <= i < self.protocols@.len() && (#[trigger] self.protocols@[i]).kind()
                    == ProtocolKind::Nshead,
            ProtocolKind::Brpc => self.registered(ProtocolKind::Brpc, n),
        }
    }

    /// An empty registry.
    pub fn new() -> (m: Self)
        ensures
            m.protocols@.len() == 0,
            m.wf(),
    {
        ServiceManger { protocols: Vec::new() }
    }

    /// The index of the instance of this variant, if one exists.
    fn find_kind(&self, k: ProtocolKind) -> (r: Option<usize>)
        ensures
            r matches Some(i) ==> i < self.protocols@.len() && self.protocols@[i as int].kind()
                == k,
            r is None ==> forall|i: int|
                0 <= i < self.protocols@.len() ==> (#[trigger] self.protocols@[i]).kind() != k,
    {
        let mut i: usize = 0;
        while i < self.protocols.len()
            invariant
                i <= self.protocols@.len(),
                forall|j: int| 0 <= j < i ==> (#[trigger] self.protocols@[j]).kind() != k,
            decreases self.protocols@.len() - i,
        {
            if self.protocols[i].kind_exec() == k {
                return Some(i);
            }
            i = i + 1;
        }
        None
    }

    /// After pushing a fresh instance of a kind the registry did not hold,
    /// holding exactly one name, the registry is well formed, the fresh
    /// registration did not collide, and exactly that one registration was
    /// added to what is reachable.
    proof fn lemma_push_registers(&self, pre: ServiceManger<S>, k0: ProtocolKind, n0: Seq<u8>)
        requires
            pre.wf(),
            self.protocols@.len() == pre.protocols@.len() + 1,
            forall|j: int|
                0 <= j < pre.protocols@.len() ==> self.protocols@[j] == pre.protocols@[j],
            self.protocols@.last().kind() == k0,
            self.protocols@.last().holds_name(n0),
            self.protocols@.last().wf(),
            forall|n: Seq<u8>| self.protocols@.last().holds_name(n) ==> n == n0,
            forall|j: int|
                0 <= j < pre.protocols@.len() ==> (#[trigger] pre.protocols@[j]).kind() != k0,
        ensures
            self.wf(),
            !pre.conflict(k0, n0),
            forall|k: ProtocolKind, n: Seq<u8>|
                #[trigger] self.registered(k, n) == (pre.registered(k, n) || (k == k0 && n
                    == n0)),
    {
        let last = pre.protocols@.len() as int;
        assert forall|k: ProtocolKind, n: Seq<u8>|
            #[trigger] self.registered(k, n) == (pre.registered(k, n) || (k == k0 && n
                == n0)) by {
            if self.registered(k, n) {
                let w = choose|w: int|
                    0 <= w < self.protocols@.len() && (#[trigger] self.protocols@[w]).kind() == k
                        && self.protocols@[w].holds_name(n);
                if w < last {
                    assert(pre.protocols@[w].kind() == k && pre.protocols@[w].holds_name(n));
                    assert(pre.registered(k, n));
                } else {
                    assert(k == k0 && n == n0);
                }
            }
            if pre.registered(k, n) {
                let w = choose|w: int|
                    0 <= w < pre.protocols@.len() && (#[trigger] pre.protocols@[w]).kind() == k
                        && pre.protocols@[w].holds_name(n);
                assert(self.protocols@[w].kind() == k && self.protocols@[w].holds_name(n));
                assert(self.registered(k, n));
            }
            if k == k0 && n == n0 {
                assert(self.protocols@[last].kind() == k && self.protocols@[last].holds_name(n));
                assert(self.registered(k, n));
            }
        }
    }

    /// Registers a service under an explicit descriptor.
    ///
    /// Succeeds exactly when the descriptor does not collide with what is
    /// already registered; on success the service becomes reachable under
    /// its protocol and name, and nothing else changes in what is
    /// reachable. On failure the registry is unchanged.
    pub fn add_service_as(&mut self, desc: ServiceDescriptor, svc: S) -> (r: Result<(), Error>)
        requires
            old(self).wf(),
        ensures
            final(self).wf(),
            (r is Ok) == !old(self).conflict(desc.protocol, desc.full_name@),
            r is Err ==> final(self).protocols@ == old(self).protocols@ && (r matches Err(
                Error::Svc(SvcErr::Exist(_)),
            )),
            r is Ok ==> forall|k: ProtocolKind, n: Seq<u8>|
                #[trigger] final(self).registered(k, n) == (old(self).registered(k, n) || (k
                    == desc.protocol && n == desc.full_name@)),
    {
        let ghost pre = *self;
        match self.find_kind(desc.protocol) {
            Some(i) => {
                let inst = self.protocols.remove(i);
                match inst {
                    ProtocolInst::NsheadInst(p) => {
                        // a registered fixed-header instance always holds
                        // its service, so a second registration collides
                        proof {
                            assert(pre.protocols@[i as int].wf());
                        }
                        let existing = p.svc.as_ref().unwrap().0.clone();
                        self.protocols.insert(i, ProtocolInst::NsheadInst(p));
                        proof {
                            assert(self.protocols@ =~= pre.protocols@);
                            assert(pre.protocols@[i as int].kind() == ProtocolKind::Nshead);
                            assert(pre.conflict(desc.protocol, desc.full_name@));
                        }
                        Err(Error::Svc(SvcErr::Exist(existing)))
                    },
                    ProtocolInst::BrpcInst(mut b) => {
                        let ghost b0 = b;
                        let ghost gname = desc.full_name@;
                        let r = b.add_service(desc.full_name, svc);
                        self.protocols.insert(i, ProtocolInst::BrpcInst(b));
                        proof {
                            assert(self.protocols@.len() == pre.protocols@.len());
                            assert(forall|j: int|
                                0 <= j < self.protocols@.len() && j != i ==> self.protocols@[j]
                                    == pre.protocols@[j]);
                            assert(pre.protocols@[i as int] == ProtocolInst::BrpcInst(b0));
                            // the only instance of the tagged kind is this
                            // one, so a manager-level collision is exactly a
                            // collision inside it
                            assert forall|w: int|
                                0 <= w < pre.protocols@.len() && (#[trigger] pre.protocols@[w]).kind()
                                    == ProtocolKind::Brpc implies w == i by {
                                if w != i {
                                    assert(pre.protocols@[i as int].kind() == ProtocolKind::Brpc);
                                }
                            }
                            assert(pre.conflict(desc.protocol, gname) == b0.registered(gname));
                            if r is Err {
                                assert(self.protocols@ =~= pre.protocols@);
                            } else {
                                assert(self.protocols@[i as int] == ProtocolInst::BrpcInst(b));
                                assert forall|k: ProtocolKind, n: Seq<u8>|
                                    #[trigger] self.registered(k, n) == (pre.registered(k, n) || (k
                                        == desc.protocol && n == gname)) by {
                                    if self.registered(k, n) {
                                        let w = choose|w: int|
                                            0 <= w < self.protocols@.len() && (
                                            #[trigger] self.protocols@[w]).kind() == k
                                                && self.protocols@[w].holds_name(n);
                                        if w != i {
                                            assert(pre.protocols@[w].kind() == k
                                                && pre.protocols@[w].holds_name(n));
                                            assert(pre.registered(k, n));
                                        } else {
                                            assert(b.registered(n));
                                            if n != gname {
                                                assert(b0.registered(n));
                                                assert(pre.registered(k, n));
                                            }
                                        }
                                    }
                                    if pre.registered(k, n) {
                                        let w = choose|w: int|
                                            0 <= w < pre.protocols@.len() && (
                                            #[trigger] pre.protocols@[w]).kind() == k
                                                && pre.protocols@[w].holds_name(n);
                                        if w != i {
                                            assert(self.protocols@[w].kind() == k
                                                && self.protocols@[w].holds_name(n));
                                        } else {
                                            assert(b0.registered(n));
                                            assert(b.registered(n));
                                            assert(self.protocols@[i as int].holds_name(n));
                                        }
                                        assert(self.registered(k, n));
                                    }
                                    if k == desc.protocol && n == gname {
                                        assert(b.registered(n));
                                        assert(self.protocols@[i as int].kind() == k
                                            && self.protocols@[i as int].holds_name(n));
                                        assert(self.registered(k, n));
                                    }
                                }
                            }
                        }
                        r
                    },
                }
            },
            None => {
                let ghost gname = desc.full_name@;
                match desc.protocol {
                    ProtocolKind::Nshead => {
                        let mut p = Nshead::new();
                        let r = p.add_service(desc.full_name, svc);
                        proof {
                            assert(r is Ok);
                            assert(p.svc is Some && p.svc.unwrap().0@ == gname);
                        }
                        self.protocols.push(ProtocolInst::NsheadInst(p));
                        proof {
                            let last = self.protocols@.len() - 1;
                            assert(self.protocols@[last] == ProtocolInst::NsheadInst(p));
                            self.lemma_push_registers(pre, ProtocolKind::Nshead, gname);
                        }
                        Ok(())
                    },
                    ProtocolKind::Brpc => {
                        let mut b = Brpc::new();
                        let r = b.add_service(desc.full_name, svc);
                        proof {
                            assert(r is Ok);
                            assert(b.services@[0].0@ == gname);
                            assert(b.registered(gname));
                            assert(b.wf());
                        }
                        self.protocols.push(ProtocolInst::BrpcInst(b));
                        proof {
                            let last = self.protocols@.len() - 1;
                            assert(self.protocols@[last] == ProtocolInst::BrpcInst(b));
                            self.lemma_push_registers(pre, ProtocolKind::Brpc, gname);
                        }
                        Ok(())
                    },
                }
            },
        }
    }

    /// Registers a service where it asks to be registered: under the
    /// protocol and name its own descriptor gives. The registry stays well
    /// formed whatever the descriptor says; the exact success and
    /// reachability conditions are those of `add_service_as`.
    pub fn add_service(&mut self, svc: S) -> (r: Result<(), Error>)
        requires
            old(self).wf(),
        ensures
            final(self).wf(),
            r is Err ==> r matches Err(Error::Svc(SvcErr::Exist(_))),
    {
        let desc = svc.descriptor();
        self.add_service_as(desc, svc)
    }

    /// Serves one connection's bytes: feeds `chunk` to the protocol
    /// currently being tried and reports how the exchange progressed.
    ///
    /// An empty `chunk` means the peer closed. A protocol that rejects the
    /// bytes hands the connection to the next registered protocol — the
    /// bytes the rejected attempt consumed are not replayed for the next
    /// candidate, which mirrors how the attempts read from one shared
    /// stream; detection across protocols is therefore only reliable when
    /// the rejecting protocol consumed nothing it should have passed on.
    /// A connection serves one request: once the result is anything but
    /// `NeedMore` the state is finished and must not be fed again.
    pub fn drive(&self, st: &mut DispatchState, chunk: &[u8]) -> (p: Progress)
        requires
            self.wf(),
            !old(st).done,
            old(st).idx <= self.protocols@.len(),
        ensures
            final(st).idx <= self.protocols@.len(),
            final(st).done == !(p is NeedMore),
            p is NeedMore ==> (final(st).idx == old(st).idx
                && final(st).buf@ == old(st).buf@ + chunk@
                && self.protocols@[old(st).idx as int].step_of(final(st).buf@) is Incomplete
                && chunk@.len() > 0)
                || (final(st).idx == old(st).idx + 1
                && final(st).buf@ == Seq::<u8>::empty()
                && self.protocols@[old(st).idx as int].step_of(old(st).buf@ + chunk@) is Foreign),
            old(st).idx == self.protocols@.len() ==> p == Progress::Abandon(
                Error::Parse(ParseErr::TryOther),
            ),
            old(st).idx < self.protocols@.len() && chunk@.len() == 0
                && self.protocols@[old(st).idx as int].step_of(old(st).buf@ + chunk@)
                is Incomplete ==> p == Progress::Abandon(Error::Parse(ParseErr::UnexpectedEof)),
            old(st).idx < self.protocols@.len() && chunk@.len() > 0
                && self.protocols@[old(st).idx as int].step_of(old(st).buf@ + chunk@)
                is Incomplete ==> p is NeedMore,
            old(st).idx < self.protocols@.len()
                && self.protocols@[old(st).idx as int].step_of(old(st).buf@ + chunk@) is Foreign
                ==> (old(st).idx + 1 < self.protocols@.len() && p is NeedMore) || (old(st).idx + 1
                == self.protocols@.len() && p == Progress::Abandon(
                Error::Parse(ParseErr::TryOther),
            )),
            old(st).idx < self.protocols@.len()
                && self.protocols@[old(st).idx as int].step_of(old(st).buf@ + chunk@) is Complete
                ==> !(p is NeedMore),
            p matches Progress::Respond(out) ==> old(st).idx < self.protocols@.len()
                && final(st).idx == old(st).idx
                && final(st).buf@ == old(st).buf@ + chunk@
                && self.protocols@[old(st).idx as int].step_of(final(st).buf@) is Complete
                && (self.protocols@[old(st).idx as int] is BrpcInst ==> exists|pp: Seq<u8>|
                out@ == brpc_frame(crate::meta::resp_meta_enc(0), pp))
                && (self.protocols@[old(st).idx as int] is NsheadInst ==> exists|pp: Seq<u8>|
                out@ == nshead_pack(pp)),
    {
        if st.idx >= self.protocols.len() {
            st.done = true;
            return Progress::Abandon(Error::Parse(ParseErr::TryOther));
        }
        let inst = &self.protocols[st.idx];
        let step = match inst {
            ProtocolInst::NsheadInst(p) => p.parse(&mut st.buf, chunk),
            ProtocolInst::BrpcInst(p) => p.parse(&mut st.buf, chunk),
        };
        match step {
            PollStep::NeedMore => {
                if chunk.len() == 0 {
                    proof {
                        assert(old(st).buf@ + chunk@ =~= old(st).buf@);
                    }
                    st.done = true;
                    Progress::Abandon(Error::Parse(ParseErr::UnexpectedEof))
                } else {
                    Progress::NeedMore
                }
            },
            PollStep::Reject => {
                st.idx = st.idx + 1;
                st.buf = Vec::new();
                if st.idx >= self.protocols.len() {
                    st.done = true;
                    Progress::Abandon(Error::Parse(ParseErr::TryOther))
                } else {
                    Progress::NeedMore
                }
            },
            PollStep::Frame(msg) => {
                st.done = true;
                let ghost greq_meta = msg.meta@;
                let resp = match inst {
                    ProtocolInst::NsheadInst(p) => p.process_request(msg),
                    ProtocolInst::BrpcInst(p) => p.process_request(msg),
                };
                match resp {
                    Err(e) => Progress::Abandon(e),
                    Ok(m) => {
                        if (m.meta.len() as u128) + (m.payload.len() as u128) > (u32::MAX
                            as u128) {
                            return Progress::Abandon(
                                Error::StrErr("response exceeds the frame size limit".to_string()),
                            );
                        }
                        let ghost gm_meta = m.meta@;
                        let ghost gm_payload = m.payload@;
                        match inst {
                            ProtocolInst::NsheadInst(p) => {
                                let out = p.pack_response(m);
                                proof {
                                    assert(out@ == nshead_pack(gm_meta + gm_payload));
                                    assert(exists|pp: Seq<u8>| out@ == nshead_pack(pp));
                                }
                                Progress::Respond(out)
                            },
                            ProtocolInst::BrpcInst(p) => {
                                proof {
                                    if !crate::meta::req_meta_ok(greq_meta) {
                                        assert(false);
                                    } else if !p.registered(
                                        crate::meta::req_meta_service(greq_meta),
                                    ) {
                                        assert(false);
                                    }
                                    assert(gm_meta == crate::meta::resp_meta_enc(0));
                                }
                                let out = p.pack_response(m);
                                proof {
                                    assert(out@ == brpc_frame(
                                        crate::meta::resp_meta_enc(0),
                                        gm_payload,
                                    ));
                                    assert(exists|pp: Seq<u8>|
                                        out@ == brpc_frame(crate::meta::resp_meta_enc(0), pp));
                                }
                                Progress::Respond(out)
                            },
                        }
                    },
                }
            },
        }
    }

    /// Serves one connection whose inbound bytes are `data`, delivered in
    /// chunks of `chunk_size` bytes as a stream would deliver them; `data`
    /// running out stands for the peer closing. Returns the framed response
    /// to write back, or the error the connection is abandoned with.
    pub fn process(&self, data: &[u8], chunk_size: usize) -> (r: Result<Vec<u8>, Error>)
        requires
            self.wf(),
            chunk_size >= 1,
        ensures
            self.protocols@.len() == 0 ==> r == Err::<Vec<u8>, Error>(Error::Parse(
                ParseErr::TryOther,
            )),
            self.protocols@.len() > 0 && self.protocols@[0].step_of(data@) is Incomplete ==> r
                == Err::<Vec<u8>, Error>(Error::Parse(ParseErr::UnexpectedEof)),
            self.protocols@.len() == 1 && self.protocols@[0].step_of(data@) is Foreign ==> r
                == Err::<Vec<u8>, Error>(Error::Parse(ParseErr::TryOther)),
            r matches Ok(out) ==> exists|i: int|
                0 <= i < self.protocols@.len() && ((self.protocols@[i] is BrpcInst && (exists|
                pp: Seq<u8>|
                out@ == brpc_frame(crate::meta::resp_meta_enc(0), pp))) || (self.protocols@[i]
                is NsheadInst && (exists|pp: Seq<u8>| out@ == nshead_pack(pp)))),
    {
        let mut st = DispatchState::new();
        let mut pos: usize = 0;
        loop
            invariant
                self.wf(),
                chunk_size >= 1,
                pos <= data@.len(),
                !st.done,
                st.idx <= self.protocols@.len(),
                self.protocols@.len() > 0 && self.protocols@[0].step_of(data@) is Incomplete
                    ==> st.idx == 0 && st.buf@ == data@.subrange(0, pos as int),
                self.protocols@.len() == 1 && self.protocols@[0].step_of(data@) is Foreign
                    ==> st.idx == 0 && st.buf@ == data@.subrange(0, pos as int),
            decreases data@.len() - pos, self.protocols@.len() - st.idx,
        {
            let end = if data.len() - pos < chunk_size {
                data.len()
            } else {
                pos + chunk_size
            };
            let ghost prev_idx = st.idx;
            let ghost prev_buf = st.buf@;
            let ghost prev_pos = pos;
            let p = self.drive(&mut st, &data[pos..end]);
            pos = end;
            proof {
                if self.protocols@.len() > 0 && self.protocols@[0].step_of(data@) is Incomplete {
                    // the first protocol has not judged the whole stream, so
                    // it cannot have judged any prefix of it either
                    let prefix = data@.subrange(0, pos as int);
                    let rest = data@.subrange(pos as int, data@.len() as int);
                    assert(prev_buf + data@.subrange(prev_pos as int, pos as int) =~= prefix);
                    assert(prefix + rest =~= data@);
                    if !(self.protocols@[0].step_of(prefix) is Incomplete) {
                        lemma_inst_step_extend(self.protocols@[0], prefix, rest);
                    }
                    assert(self.protocols@[0].step_of(prefix) is Incomplete);
                }
                if self.protocols@.len() == 1 && self.protocols@[0].step_of(data@) is Foreign {
                    // the stream is foreign to the only protocol, so no
                    // prefix of it can be a complete frame
                    let prefix = data@.subrange(0, pos as int);
                    let rest = data@.subrange(pos as int, data@.len() as int);
                    assert(prev_buf + data@.subrange(prev_pos as int, pos as int) =~= prefix);
                    assert(prefix + rest =~= data@);
                    if self.protocols@[0].step_of(prefix) is Complete {
                        lemma_inst_step_extend(self.protocols@[0], prefix, rest);
                        assert(false);
                    }
                    if pos == data@.len() {
                        assert(prefix =~= data@);
                    }
                }
            }
            match p {
                Progress::NeedMore => {
                },
                Progress::Respond(out) => {
                    proof {
                        let inst = self.protocols@[prev_idx as int];
                        let witnessed = (inst is BrpcInst && (exists|pp: Seq<u8>|
                            out@ == brpc_frame(crate::meta::resp_meta_enc(0), pp))) || (inst
                            is NsheadInst && (exists|pp: Seq<u8>| out@ == nshead_pack(pp)));
                        match inst {
                            ProtocolInst::BrpcInst(_) => {
                                assert(witnessed);
                            },
                            ProtocolInst::NsheadInst(_) => {
                                assert(witnessed);
                            },
                        }
                        assert(exists|i: int|
                            0 <= i < self.protocols@.len() && ((self.protocols@[i] is BrpcInst
                                && (exists|pp: Seq<u8>|
                            out@ == brpc_frame(crate::meta::resp_meta_enc(0), pp))) || (
                            self.protocols@[i] is NsheadInst && (exists|pp: Seq<u8>|
                                out@ == nshead_pack(pp)))));
                    }
                    return Ok(out);
                },
                Progress::Abandon(e) => {
                    return Err(e);
                },
            }
        }
    }
}

/// The per-connection dispatch state: which protocol is being tried and
/// the bytes accumulated for it.
pub struct DispatchState {
    /// Index of the protocol currently being tried, in registration order.
    pub idx: usize,
    /// The bytes fed to that protocol so far.
    pub buf: Vec<u8>,
    /// The exchange is over: a response was produced or the connection was
    /// abandoned. A finished state must not be fed again.
    pub done: bool,
}

impl DispatchState {
    /// The state a fresh connection starts in.
    pub fn new() -> (st: Self)
        ensures
            st.idx == 0,
            st.buf@ == Seq::<u8>::empty(),
            !st.done,
    {
        DispatchState { idx: 0, buf: Vec::new(), done: false }
    }
}

/// How one feeding of connection bytes moved the exchange forward.
pub enum Progress {
    /// The frame is still incomplete; feed the next chunk.
    NeedMore,
    /// The request was served: write these bytes back and close.
    Respond(Vec<u8>),
    /// The connection is abandoned with this error.
    Abandon(Error),
}

} // verus!
