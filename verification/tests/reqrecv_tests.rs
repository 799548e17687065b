use vpp_api_transport::framing::split_msg_id;
use vpp_api_transport::reqrecv::{
    control_ping_request, encode_request, BulkCollector, BulkStep, ControlPing, ControlPingReply,
    ReplyWaiter,
};
use vpp_api_transport::shmem;

#[test]
fn request_is_id_then_body() {
    let r = encode_request(0x1234, &[9, 8, 7]);
    assert_eq!(r, vec![0x12, 0x34, 9, 8, 7]);
    assert_eq!(split_msg_id(&r), (0x1234, vec![9, 8, 7]));
}

#[test]
fn control_ping_request_layout() {
    let r = control_ping_request(0x0011, 0x0102_0304);
    assert_eq!(r, vec![0x00, 0x11, 1, 2, 3, 4, 0, 0, 0, 0]);
    let p = ControlPing::decode(&r[2..]);
    assert_eq!(p, ControlPing { client_index: 0x0102_0304, context: 0 });
}

#[test]
fn control_ping_reply_roundtrip() {
    let r = ControlPingReply { context: 5, retval: -1, client_index: 2, vpe_pid: 4242 };
    let b = r.encode();
    assert_eq!(b.len(), 16);
    assert_eq!(&b[4..8], &[0xff, 0xff, 0xff, 0xff]);
    assert_eq!(ControlPingReply::decode(&b), r);
    let mut longer = b.clone();
    longer.extend([1, 2, 3]);
    assert_eq!(ControlPingReply::decode(&longer), r);
}

#[test]
fn waiter_skips_until_reply() {
    let mut w = ReplyWaiter::new(7);
    assert!(!w.receive(3, &[1]));
    assert!(!w.receive(8, &[2]));
    assert!(w.receive(7, &[4, 5]));
    assert_eq!(w.into_reply(), Some(vec![4, 5]));
    let w2 = ReplyWaiter::new(1);
    assert_eq!(w2.into_reply(), None);
}

#[test]
fn bulk_collects_until_control_ping_reply() {
    let mut c = BulkCollector::new(20, 30);
    assert!(!c.is_done());
    assert_eq!(c.receive(20, &[1]), BulkStep::Reply);
    assert_eq!(c.receive(5, &[2]), BulkStep::Skip);
    assert_eq!(c.receive(20, &[3]), BulkStep::Reply);
    assert!(!c.is_done());
    assert_eq!(c.receive(30, &[]), BulkStep::Done);
    assert!(c.is_done());
}

#[test]
fn bulk_ping_reply_wins_over_reply_id() {
    let mut c = BulkCollector::new(30, 30);
    assert_eq!(c.receive(30, &[1]), BulkStep::Done);
}

#[test]
fn shmem_state() {
    let mut t = shmem::Transport::new();
    assert!(!t.is_connected());
    assert_eq!(t.connect_result(-1), -1);
    assert!(!t.is_connected());
    assert!(!t.disconnect());
    assert_eq!(t.connect_result(0), 0);
    assert!(t.is_connected());
    assert_eq!(t.get_msg_index("anything"), 0);
    assert_eq!(t.get_table_max_index(), 0);
    assert!(t.disconnect());
    assert!(!t.is_connected());
}
