//! The routing-metadata codec: varints, field scanning, and the request
//! and response envelopes.
use server_kit::error::MetaErr;
use server_kit::meta::{decode_request_meta, encode_request_meta, encode_response_meta,
    read_varint, write_varint, RequestMeta, ResponseMeta};

fn varint(n: u64) -> Vec<u8> {
    let mut out = Vec::new();
    write_varint(&mut out, n);
    out
}

#[test]
fn varint_round_trip_values() {
    for n in [0u64, 1, 127, 128, 129, 300, 16383, 16384, 0xffff_ffff, u64::MAX] {
        let enc = varint(n);
        assert!(enc.len() <= 10);
        let (v, end) = read_varint(&enc, 0).unwrap();
        assert_eq!(v, n);
        assert_eq!(end, enc.len());
    }
}

#[test]
fn varint_exact_encodings() {
    assert_eq!(varint(0), vec![0x00]);
    assert_eq!(varint(127), vec![0x7f]);
    assert_eq!(varint(128), vec![0x80, 0x01]);
    assert_eq!(varint(300), vec![0xac, 0x02]);
}

#[test]
fn varint_truncated() {
    assert_eq!(read_varint(&[], 0).unwrap_err(), MetaErr::Truncated);
    assert_eq!(read_varint(&[0x80], 0).unwrap_err(), MetaErr::Truncated);
    assert_eq!(read_varint(&[0xff, 0xff], 0).unwrap_err(), MetaErr::Truncated);
}

#[test]
fn varint_too_long_or_too_big() {
    // eleven bytes: over the ten-byte cap even though the value is small
    let mut eleven = vec![0x80u8; 10];
    eleven.push(0x01);
    assert_eq!(read_varint(&eleven, 0).unwrap_err(), MetaErr::BadVarint);
    // ten bytes encoding a value above u64::MAX
    let mut big = vec![0xffu8; 9];
    big.push(0x7f);
    assert_eq!(read_varint(&big, 0).unwrap_err(), MetaErr::BadVarint);
}

#[test]
fn request_meta_exact_bytes() {
    let rm = RequestMeta { service_name: b"ab".to_vec(), method_name: b"c".to_vec() };
    let enc = encode_request_meta(&rm);
    assert_eq!(enc, vec![0x0a, 0x07, 0x0a, 0x02, 0x61, 0x62, 0x12, 0x01, 0x63]);
}

#[test]
fn request_meta_round_trip() {
    let rm = RequestMeta { service_name: b"echo_brpc".to_vec(), method_name: b"echo".to_vec() };
    let enc = encode_request_meta(&rm);
    let back = decode_request_meta(&enc).unwrap();
    assert_eq!(back, rm);
}

#[test]
fn request_meta_round_trip_empty_names() {
    let rm = RequestMeta { service_name: Vec::new(), method_name: Vec::new() };
    let back = decode_request_meta(&encode_request_meta(&rm)).unwrap();
    assert_eq!(back, rm);
}

#[test]
fn decoder_skips_unknown_fields() {
    // inner: varint field 3, fixed32 field 4, fixed64 field 5, then the
    // two names; an unknown length-delimited field 9 at the top level too
    let mut inner = Vec::new();
    inner.extend_from_slice(&[0x18, 0x2a]);
    inner.extend_from_slice(&[0x25, 1, 2, 3, 4]);
    inner.extend_from_slice(&[0x29, 1, 2, 3, 4, 5, 6, 7, 8]);
    inner.extend_from_slice(&[0x0a, 0x03]);
    inner.extend_from_slice(b"svc");
    inner.extend_from_slice(&[0x12, 0x01]);
    inner.extend_from_slice(b"m");
    let mut top = Vec::new();
    top.extend_from_slice(&[0x4a, 0x02, 0xaa, 0xbb]);
    top.push(0x0a);
    top.push(inner.len() as u8);
    top.extend_from_slice(&inner);
    let rm = decode_request_meta(&top).unwrap();
    assert_eq!(rm.service_name, b"svc".to_vec());
    assert_eq!(rm.method_name, b"m".to_vec());
}

#[test]
fn decoder_last_occurrence_wins() {
    let mut inner = Vec::new();
    inner.extend_from_slice(&[0x0a, 0x03]);
    inner.extend_from_slice(b"old");
    inner.extend_from_slice(&[0x12, 0x01]);
    inner.extend_from_slice(b"m");
    inner.extend_from_slice(&[0x0a, 0x03]);
    inner.extend_from_slice(b"new");
    let mut top = Vec::new();
    top.push(0x0a);
    top.push(inner.len() as u8);
    top.extend_from_slice(&inner);
    let rm = decode_request_meta(&top).unwrap();
    assert_eq!(rm.service_name, b"new".to_vec());
}

#[test]
fn decoder_missing_fields() {
    // no fields at all
    assert_eq!(decode_request_meta(&[]).unwrap_err(), MetaErr::MissingField);
    // a request submessage with only a service name
    let top = vec![0x0a, 0x05, 0x0a, 0x03, 0x73, 0x76, 0x63];
    assert_eq!(decode_request_meta(&top).unwrap_err(), MetaErr::MissingField);
}

#[test]
fn decoder_rejects_malformed_fields() {
    // wire type 3 (group start) is not accepted
    assert_eq!(decode_request_meta(&[0x0b]).unwrap_err(), MetaErr::BadWireType);
    // field number zero is invalid
    assert_eq!(decode_request_meta(&[0x02, 0x00]).unwrap_err(), MetaErr::BadWireType);
    // declared length runs past the end of the segment
    assert_eq!(decode_request_meta(&[0x0a, 0x05, 0x01]).unwrap_err(), MetaErr::Truncated);
}

#[test]
fn response_meta_exact_bytes() {
    let enc = encode_response_meta(&ResponseMeta { error_code: 0 });
    assert_eq!(enc, vec![0x12, 0x02, 0x08, 0x00]);
    let enc = encode_response_meta(&ResponseMeta { error_code: 300 });
    assert_eq!(enc, vec![0x12, 0x03, 0x08, 0xac, 0x02]);
}
