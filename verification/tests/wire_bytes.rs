//! The byte-level helpers: big-endian fields and buffer operations.
use server_kit::wire::{bytes_eq, copy_range, push_bytes, push_u16_be, push_u32_be, u16_from_be,
    u32_from_be};

#[test]
fn u32_big_endian_round_trip() {
    for x in [0u32, 1, 0xff, 0x1234_5678, 0xfb70_9394, u32::MAX] {
        let mut buf = Vec::new();
        push_u32_be(&mut buf, x);
        assert_eq!(buf.len(), 4);
        assert_eq!(u32_from_be(&buf, 0), x);
    }
    assert_eq!(u32_from_be(&[0, 0x12, 0x34, 0x56, 0x78], 1), 0x1234_5678);
}

#[test]
fn u16_big_endian_round_trip() {
    for x in [0u16, 1, 0x1234, u16::MAX] {
        let mut buf = vec![0xaa];
        push_u16_be(&mut buf, x);
        assert_eq!(u16_from_be(&buf, 1), x);
    }
}

#[test]
fn buffer_helpers() {
    let mut buf = vec![1u8, 2];
    push_bytes(&mut buf, &[3, 4, 5]);
    assert_eq!(buf, vec![1, 2, 3, 4, 5]);
    assert_eq!(copy_range(&buf, 1, 4), vec![2, 3, 4]);
    assert_eq!(copy_range(&buf, 2, 2), Vec::<u8>::new());
    assert!(bytes_eq(b"abc", b"abc"));
    assert!(!bytes_eq(b"abc", b"abd"));
    assert!(!bytes_eq(b"abc", b"ab"));
    assert!(bytes_eq(b"", b""));
}
