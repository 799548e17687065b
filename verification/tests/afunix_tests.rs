use vpp_api_transport::afunix::{
    name_field, reply_is_complete, MsgSockClntCreate, MsgSockClntCreateReplyEntry,
    MsgSockClntCreateReplyHdr, Transport,
};

fn entry(index: u16, name: &str) -> Vec<u8> {
    let e = MsgSockClntCreateReplyEntry { index, name: name_field(name) };
    e.encode()
}

fn reply(index: u32, entries: &[(u16, &str)]) -> Vec<u8> {
    let hdr = MsgSockClntCreateReplyHdr {
        _vl_msg_id: 16,
        client_index: 0,
        context: 124,
        response: 0,
        index,
        count: entries.len() as u16,
    };
    let mut b = hdr.encode();
    for (i, n) in entries {
        b.extend(entry(*i, n));
    }
    b
}

#[test]
fn create_request_layout() {
    let req = Transport::sockclnt_create_request("api-test");
    assert_eq!(req.len(), 70);
    assert_eq!(&req[0..6], &[0, 15, 0, 0, 0, 124]);
    assert_eq!(&req[6..14], b"api-test");
    assert!(req[14..].iter().all(|b| *b == 0));
    let m = MsgSockClntCreate::for_client("api-test");
    assert_eq!(m._vl_msg_id, 15);
    assert_eq!(m.context, 124);
    let back = MsgSockClntCreate::decode(&req);
    assert_eq!(back.name, m.name);
    assert_eq!(back._vl_msg_id, 15);
    assert_eq!(back.context, 124);
}

#[test]
fn create_request_with_name_of_64_bytes() {
    let name = "x".repeat(64);
    let req = Transport::sockclnt_create_request(&name);
    assert_eq!(&req[6..], name.as_bytes());
}

#[test]
fn reply_header_roundtrip_with_negative_response() {
    let hdr = MsgSockClntCreateReplyHdr {
        _vl_msg_id: 16,
        client_index: 7,
        context: 124,
        response: -3,
        index: 0x8000_0001,
        count: 2,
    };
    let b = hdr.encode();
    assert_eq!(&b[10..14], &[0xff, 0xff, 0xff, 0xfd]);
    assert_eq!(MsgSockClntCreateReplyHdr::decode(&b), hdr);
}

#[test]
fn handshake_fills_the_message_table() {
    let mut t = Transport::new("/run/vpp/api.sock");
    assert_eq!(t.sock_path(), "/run/vpp/api.sock");
    assert!(!t.is_connected());
    t.set_connected();
    assert!(t.is_connected());
    let r = reply(2147483649, &[(1, "control_ping_51077d14"), (2, "control_ping_reply_f6b0b8ca")]);
    assert!(reply_is_complete(&r));
    t.apply_sockclnt_create_reply(&r);
    assert_eq!(t.get_client_index(), 2147483649);
    assert_eq!(t.get_msg_index("control_ping_51077d14"), Some(1));
    assert_eq!(t.get_msg_index("control_ping_reply_f6b0b8ca"), Some(2));
    assert_eq!(t.get_msg_index("show_version_51077d14"), None);
    assert_eq!(t.get_table_max_index(), 0);
}

#[test]
fn later_entry_for_a_name_wins() {
    let mut t = Transport::new("p");
    let r = reply(1, &[(5, "a_1"), (6, "b_2"), (7, "a_1")]);
    t.apply_sockclnt_create_reply(&r);
    assert_eq!(t.get_msg_index("a_1"), Some(7));
    assert_eq!(t.get_msg_index("b_2"), Some(6));
    let r2 = reply(9, &[(8, "b_2")]);
    t.apply_sockclnt_create_reply(&r2);
    assert_eq!(t.get_msg_index("a_1"), Some(7));
    assert_eq!(t.get_msg_index("b_2"), Some(8));
    assert_eq!(t.get_client_index(), 9);
}

#[test]
fn trailing_nuls_are_trimmed_and_invalid_utf8_replaced() {
    let mut t = Transport::new("p");
    let mut r = reply(1, &[(3, "")]);
    r[22] = b'o';
    r[23] = b'k';
    r[24] = 0xff;
    t.apply_sockclnt_create_reply(&r);
    assert_eq!(t.get_msg_index("ok\u{FFFD}"), Some(3));
}

#[test]
fn incomplete_reply_is_detected() {
    let r = reply(1, &[(1, "a")]);
    assert!(reply_is_complete(&r));
    assert!(!reply_is_complete(&r[..r.len() - 1]));
    assert!(!reply_is_complete(&r[..19]));
    assert!(reply_is_complete(&r[..20]) == false);
}

#[test]
fn disconnect_twice() {
    let mut t = Transport::new("p");
    t.set_connected();
    assert!(t.disconnect());
    assert!(!t.is_connected());
    assert!(!t.disconnect());
}

#[test]
fn reply_entry_roundtrip() {
    let b = entry(0x0102, "abc");
    assert_eq!(b.len(), 66);
    let e = MsgSockClntCreateReplyEntry::decode(&b, 0);
    assert_eq!(e.index, 0x0102);
    assert_eq!(&e.name[..3], b"abc");
}

#[test]
fn only_trailing_nuls_are_trimmed() {
    let mut t = Transport::new("p");
    let mut r = reply(1, &[(4, "a")]);
    r[23] = 0;
    r[24] = b'b';
    t.apply_sockclnt_create_reply(&r);
    assert_eq!(t.get_msg_index("a\0b"), Some(4));
    assert_eq!(t.get_msg_index("a"), None);
}

#[test]
fn name_field_of_full_length_has_no_padding() {
    let name = "n".repeat(64);
    let mut t = Transport::new("p");
    let r = reply(1, &[(11, &name)]);
    t.apply_sockclnt_create_reply(&r);
    assert_eq!(t.get_msg_index(&name), Some(11));
}
