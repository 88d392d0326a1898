//! Framing round trips, marker rejection, and partial-read resilience for
//! both header variants.
use server_kit::error::{Error, ParseErr};
use server_kit::message::CommonMsg;
use server_kit::protocol::brpc::{Brpc, Header as BrpcHeader, BRPC_HEADER_SIZE};
use server_kit::protocol::nshead::{Header as NsheadHeader, Nshead, NSHEAD_MAGICNUM, NSHEAD_SIZE};
use server_kit::service::{ProtocolKind, Service, ServiceDescriptor};

struct EchoSvc;

impl Service for EchoSvc {
    fn descriptor(&self) -> ServiceDescriptor {
        ServiceDescriptor { protocol: ProtocolKind::Nshead, full_name: b"echo".to_vec() }
    }

    fn call_method(&self, _method_name: &[u8], req: &[u8]) -> Result<Vec<u8>, Error> {
        Ok(req.to_vec())
    }
}

fn nshead_codec() -> Nshead<EchoSvc> {
    Nshead::new()
}

fn brpc_codec() -> Brpc<EchoSvc> {
    Brpc::new()
}

#[test]
fn nshead_round_trip_one_chunk() {
    let codec = nshead_codec();
    let frame = codec.pack_request(CommonMsg::new(b"hello".to_vec()));
    assert_eq!(frame.len(), NSHEAD_SIZE + 5);
    let msg = codec.parse_all(&frame, frame.len()).unwrap();
    assert_eq!(msg.meta, Vec::<u8>::new());
    assert_eq!(msg.payload, b"hello".to_vec());
}

#[test]
fn nshead_round_trip_byte_by_byte() {
    let codec = nshead_codec();
    let frame = codec.pack_request(CommonMsg::new(b"hello".to_vec()));
    let whole = codec.parse_all(&frame, frame.len()).unwrap();
    let trickled = codec.parse_all(&frame, 1).unwrap();
    assert_eq!(whole.meta, trickled.meta);
    assert_eq!(whole.payload, trickled.payload);
    assert_eq!(trickled.payload, b"hello".to_vec());
}

#[test]
fn nshead_round_trip_empty_payload() {
    let codec = nshead_codec();
    let frame = codec.pack_response(CommonMsg::new(Vec::new()));
    assert_eq!(frame.len(), NSHEAD_SIZE);
    let msg = codec.parse_all(&frame, 1).unwrap();
    assert_eq!(msg.payload, Vec::<u8>::new());
}

#[test]
fn nshead_rejects_wrong_magic() {
    let codec = nshead_codec();
    let mut frame = codec.pack_request(CommonMsg::new(b"hi".to_vec()));
    frame[24] ^= 0xff;
    let err = codec.parse_all(&frame, 1).unwrap_err();
    assert_eq!(err, Error::Parse(ParseErr::TryOther));
}

#[test]
fn nshead_eof_mid_frame() {
    let codec = nshead_codec();
    let frame = codec.pack_request(CommonMsg::new(b"hello".to_vec()));
    for cut in [0, 1, NSHEAD_SIZE - 1, NSHEAD_SIZE, frame.len() - 1] {
        let err = codec.parse_all(&frame[..cut], 1).unwrap_err();
        assert_eq!(err, Error::Parse(ParseErr::UnexpectedEof));
    }
}

#[test]
fn nshead_header_wire_image() {
    let head = NsheadHeader::default_with_len(7);
    assert_eq!(head.magic_num, NSHEAD_MAGICNUM);
    let bytes = head.as_u8_slice();
    assert_eq!(bytes.len(), NSHEAD_SIZE);
    assert_eq!(&bytes[24..28], &[0xfb, 0x70, 0x93, 0x94]);
    assert_eq!(&bytes[32..36], &[0, 0, 0, 7]);
    let back = NsheadHeader::from_u8_slice(&bytes);
    assert_eq!(back.magic_num, NSHEAD_MAGICNUM);
    assert_eq!(back.body_size, 7);
    assert_eq!(back.id, 0);
    assert_eq!(back.provider, [0u8; 16]);
}

#[test]
fn brpc_round_trip_with_meta() {
    let codec = brpc_codec();
    let mut msg = CommonMsg::new(b"payload".to_vec());
    msg.with_meta(b"somemeta".to_vec());
    let frame = codec.pack_request(msg);
    assert_eq!(frame.len(), BRPC_HEADER_SIZE + 8 + 7);
    for chunk in [1, 2, 3, frame.len()] {
        let back = codec.parse_all(&frame, chunk).unwrap();
        assert_eq!(back.meta, b"somemeta".to_vec());
        assert_eq!(back.payload, b"payload".to_vec());
    }
}

#[test]
fn brpc_round_trip_empty_body() {
    let codec = brpc_codec();
    let frame = codec.pack_response(CommonMsg::new(Vec::new()));
    assert_eq!(frame.len(), BRPC_HEADER_SIZE);
    let back = codec.parse_all(&frame, 1).unwrap();
    assert_eq!(back.meta, Vec::<u8>::new());
    assert_eq!(back.payload, Vec::<u8>::new());
}

#[test]
fn brpc_rejects_foreign_tag_immediately() {
    let codec = brpc_codec();
    // the first byte already differs: one byte is enough to reject
    let err = codec.parse_all(b"X", 1).unwrap_err();
    assert_eq!(err, Error::Parse(ParseErr::TryOther));
    // divergence in the middle of the tag region
    let err = codec.parse_all(b"PRXC-rest-of-garbage", 1).unwrap_err();
    assert_eq!(err, Error::Parse(ParseErr::TryOther));
}

#[test]
fn brpc_rejects_body_smaller_than_meta() {
    // header declares body_size 2 but meta_size 5: foreign, never decoded
    let mut frame = Vec::new();
    frame.extend_from_slice(b"PRPC");
    frame.extend_from_slice(&[0, 0, 0, 2]);
    frame.extend_from_slice(&[0, 0, 0, 5]);
    frame.extend_from_slice(b"abcde");
    let codec = brpc_codec();
    for chunk in [1, frame.len()] {
        let err = codec.parse_all(&frame, chunk).unwrap_err();
        assert_eq!(err, Error::Parse(ParseErr::TryOther));
    }
}

#[test]
fn brpc_eof_mid_frame() {
    let codec = brpc_codec();
    let mut msg = CommonMsg::new(b"abc".to_vec());
    msg.with_meta(b"m".to_vec());
    let frame = codec.pack_request(msg);
    for cut in [0, 3, BRPC_HEADER_SIZE, frame.len() - 1] {
        let err = codec.parse_all(&frame[..cut], 1).unwrap_err();
        assert_eq!(err, Error::Parse(ParseErr::UnexpectedEof));
    }
}

#[test]
fn brpc_header_wire_image() {
    let head = BrpcHeader::new(3, 2);
    assert_eq!(head.body_size, 5);
    assert_eq!(head.meta_size, 2);
    let bytes = head.as_u8_slice();
    assert_eq!(bytes, b"PRPC\x00\x00\x00\x05\x00\x00\x00\x02".to_vec());
    let back = BrpcHeader::from_u8_slice(&bytes);
    assert_eq!(back, head);
}

#[test]
fn common_msg_serialization() {
    let mut msg = CommonMsg::new(b"pay".to_vec());
    assert_eq!(msg.body_size(), 3);
    msg.with_meta(b"meta".to_vec());
    assert_eq!(msg.meta_size(), 4);
    assert_eq!(msg.payload_size(), 3);
    assert_eq!(msg.body_size(), 7);
    assert_eq!(msg.to_vec(), b"metapay".to_vec());
    let mut no_meta = CommonMsg::new(b"pay".to_vec());
    no_meta.with_payload(b"other".to_vec());
    assert_eq!(no_meta.to_vec(), b"other".to_vec());
}
