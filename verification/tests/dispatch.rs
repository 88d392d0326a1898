//! Registry behaviour and end-to-end dispatch through the connection state
//! machine.
use server_kit::error::{Error, ParseErr, SvcErr};
use server_kit::message::CommonMsg;
use server_kit::meta::{encode_request_meta, encode_response_meta, RequestMeta, ResponseMeta};
use server_kit::protocol::brpc::Brpc;
use server_kit::protocol::nshead::Nshead;
use server_kit::service::{DispatchState, Progress, ProtocolKind, Service, ServiceDescriptor,
    ServiceManger};

/// A service that echoes the payload for method `echo` and rejects any
/// other method.
struct EchoSvc {
    protocol: ProtocolKind,
    name: &'static [u8],
}

impl Service for EchoSvc {
    fn descriptor(&self) -> ServiceDescriptor {
        ServiceDescriptor { protocol: self.protocol, full_name: self.name.to_vec() }
    }

    fn call_method(&self, method_name: &[u8], req: &[u8]) -> Result<Vec<u8>, Error> {
        if method_name == b"echo" || method_name.is_empty() {
            Ok(req.to_vec())
        } else {
            Err(Error::StrErr(format!("unknown method")))
        }
    }
}

fn brpc_echo(name: &'static [u8]) -> EchoSvc {
    EchoSvc { protocol: ProtocolKind::Brpc, name }
}

fn brpc_request(service: &[u8], method: &[u8], payload: &[u8]) -> Vec<u8> {
    let meta = encode_request_meta(&RequestMeta {
        service_name: service.to_vec(),
        method_name: method.to_vec(),
    });
    let mut msg = CommonMsg::new(payload.to_vec());
    msg.with_meta(meta);
    Brpc::<EchoSvc>::new().pack_request(msg)
}

#[test]
fn registry_duplicate_name_rejected() {
    let mut mgr = ServiceManger::new();
    mgr.add_service(brpc_echo(b"echo_brpc")).unwrap();
    let err = mgr.add_service(brpc_echo(b"echo_brpc")).unwrap_err();
    assert_eq!(err, Error::Svc(SvcErr::Exist(b"echo_brpc".to_vec())));
}

#[test]
fn registry_distinct_names_both_reachable() {
    let mut mgr = ServiceManger::new();
    mgr.add_service(brpc_echo(b"one")).unwrap();
    mgr.add_service(brpc_echo(b"two")).unwrap();
    for name in [b"one".as_slice(), b"two".as_slice()] {
        let frame = brpc_request(name, b"echo", b"ping");
        let resp = mgr.process(&frame, 1).unwrap();
        let msg = Brpc::<EchoSvc>::new().parse_all(&resp, 1).unwrap();
        assert_eq!(msg.payload, b"ping".to_vec());
    }
}

#[test]
fn registry_nshead_single_service() {
    let mut mgr = ServiceManger::new();
    mgr.add_service(EchoSvc { protocol: ProtocolKind::Nshead, name: b"first" }).unwrap();
    let err = mgr
        .add_service(EchoSvc { protocol: ProtocolKind::Nshead, name: b"second" })
        .unwrap_err();
    // the fixed-header variant binds one service: the error names the one
    // already bound
    assert_eq!(err, Error::Svc(SvcErr::Exist(b"first".to_vec())));
}

#[test]
fn dispatch_echo_end_to_end() {
    let mut mgr = ServiceManger::new();
    mgr.add_service(brpc_echo(b"echo_brpc")).unwrap();
    let frame = brpc_request(b"echo_brpc", b"echo", b"hello");
    for chunk in [1, 2, 7, frame.len()] {
        let resp_bytes = mgr.process(&frame, chunk).unwrap();
        let codec = Brpc::<EchoSvc>::new();
        let resp = codec.parse_all(&resp_bytes, 1).unwrap();
        assert_eq!(resp.meta, encode_response_meta(&ResponseMeta { error_code: 0 }));
        let payload = codec.process_response(resp).unwrap();
        assert_eq!(payload, b"hello".to_vec());
    }
}

#[test]
fn dispatch_unknown_service() {
    let mut mgr = ServiceManger::new();
    mgr.add_service(brpc_echo(b"echo_brpc")).unwrap();
    let frame = brpc_request(b"nobody_home", b"echo", b"hello");
    let err = mgr.process(&frame, 1).unwrap_err();
    assert_eq!(err, Error::Svc(SvcErr::NotExist(b"nobody_home".to_vec())));
}

#[test]
fn dispatch_unknown_method_surfaces_service_error() {
    let mut mgr = ServiceManger::new();
    mgr.add_service(brpc_echo(b"echo_brpc")).unwrap();
    let frame = brpc_request(b"echo_brpc", b"no_such_method", b"hello");
    let err = mgr.process(&frame, 1).unwrap_err();
    assert_eq!(err, Error::StrErr(format!("unknown method")));
}

#[test]
fn dispatch_nshead_end_to_end() {
    let mut mgr = ServiceManger::new();
    mgr.add_service(EchoSvc { protocol: ProtocolKind::Nshead, name: b"echo" }).unwrap();
    let frame = Nshead::<EchoSvc>::new().pack_request(CommonMsg::new(b"hi there".to_vec()));
    let resp_bytes = mgr.process(&frame, 1).unwrap();
    let resp = Nshead::<EchoSvc>::new().parse_all(&resp_bytes, 1).unwrap();
    assert_eq!(resp.payload, b"hi there".to_vec());
}

#[test]
fn dispatch_empty_stream_is_eof() {
    let mut mgr = ServiceManger::new();
    mgr.add_service(brpc_echo(b"echo_brpc")).unwrap();
    let err = mgr.process(&[], 1).unwrap_err();
    assert_eq!(err, Error::Parse(ParseErr::UnexpectedEof));
}

#[test]
fn dispatch_foreign_bytes_exhaust_protocols() {
    let mut mgr = ServiceManger::new();
    mgr.add_service(brpc_echo(b"echo_brpc")).unwrap();
    let err = mgr.process(b"GET / HTTP/1.1\r\n", 1).unwrap_err();
    assert_eq!(err, Error::Parse(ParseErr::TryOther));
}

#[test]
fn dispatch_second_protocol_gets_no_replay() {
    // Documented limitation: a frame for the second registered protocol is
    // read (and lost) by the first protocol's parse attempt, so
    // auto-detection only works when the first protocol matches.
    let mut mgr = ServiceManger::new();
    mgr.add_service(EchoSvc { protocol: ProtocolKind::Nshead, name: b"n" }).unwrap();
    mgr.add_service(brpc_echo(b"echo_brpc")).unwrap();
    let frame = brpc_request(b"echo_brpc", b"echo", b"hello");
    // the fixed-header attempt consumes the whole short frame while
    // waiting for its 36-byte header, so the tagged protocol never sees it
    let err = mgr.process(&frame, 1).unwrap_err();
    assert_eq!(err, Error::Parse(ParseErr::UnexpectedEof));
}

#[test]
fn dispatch_malformed_meta_is_meta_error() {
    let mut mgr = ServiceManger::new();
    mgr.add_service(brpc_echo(b"echo_brpc")).unwrap();
    // a tagged frame whose metadata segment opens with a group wire type
    let mut msg = CommonMsg::new(b"hello".to_vec());
    msg.with_meta(vec![0x0b]);
    let frame = Brpc::<EchoSvc>::new().pack_request(msg);
    let err = mgr.process(&frame, 1).unwrap_err();
    assert_eq!(err, Error::Meta(server_kit::error::MetaErr::BadWireType));
}

#[test]
fn dispatch_empty_registry_abandons() {
    let mgr: ServiceManger<EchoSvc> = ServiceManger::new();
    let frame = brpc_request(b"echo_brpc", b"echo", b"hello");
    let err = mgr.process(&frame, 1).unwrap_err();
    assert_eq!(err, Error::Parse(ParseErr::TryOther));
}

#[test]
fn drive_single_shot_state() {
    let mut mgr = ServiceManger::new();
    mgr.add_service(brpc_echo(b"echo_brpc")).unwrap();
    let frame = brpc_request(b"echo_brpc", b"echo", b"once");
    let mut st = DispatchState::new();
    let mut reply: Option<Vec<u8>> = None;
    for b in &frame {
        assert!(!st.done, "state finished before the frame was complete");
        match mgr.drive(&mut st, &[*b]) {
            Progress::NeedMore => {},
            Progress::Respond(out) => {
                reply = Some(out);
                break;
            },
            Progress::Abandon(e) => panic!("abandoned: {:?}", e),
        }
    }
    assert!(reply.is_some());
    // one request/response cycle finishes the connection's state
    assert!(st.done);
}
