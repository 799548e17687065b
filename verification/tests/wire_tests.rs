use bincode::Options;
use vpp_api_transport::framing::{split_msg_id, MsgAssembler, SockMsgHeader, SOCK_MSG_HEADER_LEN};
use vpp_api_transport::wire::{get_be, get_i32, get_u16, get_u32, get_u64, push_be, put_u16, put_u32, put_u64};

fn bincode_be<T: serde::Serialize>(v: &T) -> Vec<u8> {
    bincode::DefaultOptions::new()
        .with_big_endian()
        .with_fixint_encoding()
        .serialize(v)
        .unwrap()
}

#[test]
fn integers_are_big_endian_like_bincode() {
    for v in [0u16, 1, 0x1234, 0xff00, u16::MAX] {
        let mut out = Vec::new();
        put_u16(&mut out, v);
        assert_eq!(out, bincode_be(&v));
        assert_eq!(get_u16(&out, 0), v);
    }
    for v in [0u32, 7, 0x1234_5678, 0x8000_0000, u32::MAX] {
        let mut out = Vec::new();
        put_u32(&mut out, v);
        assert_eq!(out, bincode_be(&v));
        assert_eq!(get_u32(&out, 0), v);
    }
    for v in [0u64, 0x0102_0304_0506_0708, u64::MAX] {
        let mut out = Vec::new();
        put_u64(&mut out, v);
        assert_eq!(out, bincode_be(&v));
        assert_eq!(get_u64(&out, 0), v);
    }
}

#[test]
fn push_be_keeps_the_low_bytes() {
    let mut out = vec![9u8];
    push_be(&mut out, 0x0102_0304, 2);
    assert_eq!(out, vec![9, 3, 4]);
    push_be(&mut out, 5, 0);
    assert_eq!(out, vec![9, 3, 4]);
    assert_eq!(get_be(&[0xaa, 0x01, 0x02, 0x03], 1, 3), 0x010203);
    assert_eq!(get_be(&[0xaa], 1, 0), 0);
}

#[test]
fn signed_fields_use_twos_complement() {
    for v in [0i32, 1, -1, i32::MIN, i32::MAX, -123456] {
        let bytes = bincode_be(&v);
        assert_eq!(get_i32(&bytes, 0), v);
    }
    assert_eq!(get_i32(&[0xff, 0xff, 0xff, 0xfe], 0), -2);
}

#[test]
fn header_for_payload_matches_bincode() {
    let h = SockMsgHeader::for_payload(70);
    assert_eq!(h, SockMsgHeader { _q: 0, msglen: 70, gc_mark: 0 });
    let enc = h.encode();
    assert_eq!(enc.len(), SOCK_MSG_HEADER_LEN);
    assert_eq!(enc, bincode_be(&(0u64, 70u32, 0u32)));
    assert_eq!(
        enc,
        vec![0, 0, 0, 0, 0, 0, 0, 0, 0, 0, 0, 70, 0, 0, 0, 0]
    );
}

#[test]
fn header_length_keeps_low_32_bits() {
    let h = SockMsgHeader::for_payload(5);
    assert_eq!(h.msglen, 5);
    if usize::BITS > 32 {
        let big = (1usize << 32) + 3;
        assert_eq!(SockMsgHeader::for_payload(big).msglen, 3);
    }
}

#[test]
fn header_roundtrip() {
    let h = SockMsgHeader { _q: 0x1122_3344_5566_7788, msglen: 0xdead_beef, gc_mark: 42 };
    assert_eq!(SockMsgHeader::decode(&h.encode()), h);
    let raw: Vec<u8> = (0u8..16).collect();
    assert_eq!(SockMsgHeader::decode(&raw).encode(), raw);
}

#[test]
fn assembler_completes_when_enough_bytes_came() {
    let header = SockMsgHeader::for_payload(5).encode();
    let mut a = MsgAssembler::new(&header);
    assert_eq!(a.target_len(), 5);
    assert!(!a.is_complete());
    assert!(!a.receive(&[1, 2]));
    assert!(a.receive(&[3, 4, 5, 6]));
    assert!(a.is_complete());
    assert_eq!(a.into_message(), vec![1, 2, 3, 4, 5, 6]);
}

#[test]
fn assembler_for_empty_message_is_complete_at_once() {
    let header = SockMsgHeader::for_payload(0).encode();
    let a = MsgAssembler::new(&header);
    assert!(a.is_complete());
    assert_eq!(a.into_message(), Vec::<u8>::new());
}

#[test]
fn write_then_read_gives_back_the_payload() {
    let payload = vec![0u8, 16, 1, 2, 3];
    let header = SockMsgHeader::for_payload(payload.len()).encode();
    let mut a = MsgAssembler::new(&header);
    assert!(a.receive(&payload));
    let msg = a.into_message();
    assert_eq!(msg, payload);
    let (id, rest) = split_msg_id(&msg);
    assert_eq!(id, 16);
    assert_eq!(rest, vec![1, 2, 3]);
}

#[test]
fn split_msg_id_reads_big_endian() {
    assert_eq!(split_msg_id(&[0x01, 0x02]), (0x0102, vec![]));
    assert_eq!(split_msg_id(&[0xff, 0xfe, 9]), (0xfffe, vec![9]));
}
