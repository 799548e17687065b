//! Request/reply exchanges over a transport: how a request is laid out, which
//! incoming message answers it, and how the replies to a dump are gathered
//! up to the control-ping reply that closes them.
use vstd::prelude::*;
use crate::framing::spec_msg_id;
use crate::wire::{
    be_bytes, be_value, get_i32, get_u32, lemma_be_bytes_len, lemma_be_roundtrip,
    lemma_pow256_values, lemma_u16_at, lemma_u32_at, push_bytes, put_u16, put_u32, signed32,
};

verus! {

/// The control-ping request; its reply closes a dump.
#[derive(Clone, Copy, Debug, PartialEq, Eq, Structural)]
pub struct ControlPing {
    pub client_index: u32,
    pub context: u32,
}

/// The reply to [`ControlPing`].
#[derive(Clone, Copy, Debug, PartialEq, Eq, Structural)]
pub struct ControlPingReply {
    pub context: u32,
    pub retval: i32,
    pub client_index: u32,
    pub vpe_pid: u32,
}

/// The four bytes that stand for a signed 32-bit field.
pub open spec fn i32_bytes(v: i32) -> Seq<u8> {
    be_bytes((if v >= 0 {
        v as int
    } else {
        v + 0x1_0000_0000
    }) as nat, 4)
}

/// The unsigned number with the same 32 bits as `v`.
fn i32_bits(v: i32) -> (r: u32)
    ensures
        r as int == (if v >= 0 {
            v as int
        } else {
            v + 0x1_0000_0000
        }),
{
    if v >= 0 {
        v as u32
    } else {
        ((v + 0x4000_0000 + 0x4000_0000) as u32) + 0x8000_0000
    }
}

impl ControlPing {
    /// The 8 bytes that stand for the request body.
    pub open spec fn spec_encode(self) -> Seq<u8> {
        be_bytes(self.client_index as nat, 4) + be_bytes(self.context as nat, 4)
    }

    /// The request body that the first 8 bytes of `b` stand for.
    pub open spec fn spec_decode(b: Seq<u8>) -> ControlPing {
        ControlPing {
            client_index: be_value(b.subrange(0, 4)) as u32,
            context: be_value(b.subrange(4, 8)) as u32,
        }
    }

    /// Encodes the request body.
    pub fn encode(&self) -> (b: Vec<u8>)
        ensures
            b@ == self.spec_encode(),
            b@.len() == 8,
    {
        let mut b: Vec<u8> = Vec::new();
        put_u32(&mut b, self.client_index);
        put_u32(&mut b, self.context);
        proof {
            lemma_be_bytes_len(self.client_index as nat, 4);
            lemma_be_bytes_len(self.context as nat, 4);
            assert(b@ =~= self.spec_encode());
        }
        b
    }

    /// Decodes a request body from its first 8 bytes; later bytes are ignored.
    pub fn decode(b: &[u8]) -> (p: ControlPing)
        requires
            b@.len() >= 8,
        ensures
            p == ControlPing::spec_decode(b@),
    {
        ControlPing { client_index: get_u32(b, 0), context: get_u32(b, 4) }
    }
}

impl ControlPingReply {
    /// The 16 bytes that stand for the reply body.
    pub open spec fn spec_encode(self) -> Seq<u8> {
        be_bytes(self.context as nat, 4) + i32_bytes(self.retval) + be_bytes(
            self.client_index as nat,
            4,
        ) + be_bytes(self.vpe_pid as nat, 4)
    }

    /// The reply body that the first 16 bytes of `b` stand for.
    pub open spec fn spec_decode(b: Seq<u8>) -> ControlPingReply {
        ControlPingReply {
            context: be_value(b.subrange(0, 4)) as u32,
            retval: signed32(be_value(b.subrange(4, 8))) as i32,
            client_index: be_value(b.subrange(8, 12)) as u32,
            vpe_pid: be_value(b.subrange(12, 16)) as u32,
        }
    }

    /// Encodes the reply body.
    pub fn encode(&self) -> (b: Vec<u8>)
        ensures
            b@ == self.spec_encode(),
            b@.len() == 16,
    {
        let mut b: Vec<u8> = Vec::new();
        put_u32(&mut b, self.context);
        let r = i32_bits(self.retval);
        put_u32(&mut b, r);
        put_u32(&mut b, self.client_index);
        put_u32(&mut b, self.vpe_pid);
        proof {
            lemma_be_bytes_len(self.context as nat, 4);
            lemma_be_bytes_len(r as nat, 4);
            lemma_be_bytes_len(self.client_index as nat, 4);
            lemma_be_bytes_len(self.vpe_pid as nat, 4);
            assert(b@ =~= self.spec_encode());
        }
        b
    }

    /// Decodes a reply body from its first 16 bytes; later bytes are
    /// ignored.
    pub fn decode(b: &[u8]) -> (r: ControlPingReply)
        requires
            b@.len() >= 16,
        ensures
            r == ControlPingReply::spec_decode(b@),
    {
        ControlPingReply {
            context: get_u32(b, 0),
            retval: get_i32(b, 4),
            client_index: get_u32(b, 8),
            vpe_pid: get_u32(b, 12),
        }
    }
}

/// A request as it is written to the transport: the id of the message,
/// then its encoded body.
pub open spec fn spec_request(msg_id: u16, body: Seq<u8>) -> Seq<u8> {
    be_bytes(msg_id as nat, 2) + body
}

/// Lays out a request: the id of the message, then its encoded body.
pub fn encode_request(msg_id: u16, body: &[u8]) -> (b: Vec<u8>)
    ensures
        b@ == spec_request(msg_id, body@),
{
    let mut b: Vec<u8> = Vec::new();
    put_u16(&mut b, msg_id);
    push_bytes(&mut b, body, 0, body.len());
    assert(body@.subrange(0, body@.len() as int) =~= body@);
    b
}

/// The control-ping request that follows a dump, from the client with
/// index `client_index`, with context 0.
pub fn control_ping_request(ping_id: u16, client_index: u32) -> (b: Vec<u8>)
    ensures
        b@ == spec_request(ping_id, ControlPing { client_index, context: 0 }.spec_encode()),
{
    let ping = ControlPing { client_index, context: 0 };
    let body = ping.encode();
    encode_request(ping_id, body.as_slice())
}

/// Waits for the reply to a single request: every incoming message whose id
/// is not the reply's is passed over, and the first one whose id is the
/// reply's is the answer.
pub struct ReplyWaiter {
    reply_id: u16,
    reply: Option<Vec<u8>>,
}

impl ReplyWaiter {
    pub closed spec fn spec_reply_id(&self) -> u16 {
        self.reply_id
    }

    /// The answer, once it came.
    pub closed spec fn spec_reply(&self) -> Option<Seq<u8>> {
        match self.reply {
            Some(v) => Some(v@),
            None => None,
        }
    }

    /// Waits for a message with id `reply_id`.
    pub fn new(reply_id: u16) -> (w: ReplyWaiter)
        ensures
            w.spec_reply_id() == reply_id,
            w.spec_reply() is None,
    {
        ReplyWaiter { reply_id, reply: None }
    }

    /// Takes in the next incoming message; tells whether it is the answer.
    pub fn receive(&mut self, msg_id: u16, data: &[u8]) -> (answered: bool)
        requires
            old(self).spec_reply() is None,
        ensures
            answered == (msg_id == old(self).spec_reply_id()),
            final(self).spec_reply_id() == old(self).spec_reply_id(),
            final(self).spec_reply() == (if answered {
                Some(data@)
            } else {
                None
            }),
    {
        if msg_id == self.reply_id {
            let mut v: Vec<u8> = Vec::new();
            push_bytes(&mut v, data, 0, data.len());
            assert(data@.subrange(0, data@.len() as int) =~= data@);
            self.reply = Some(v);
            true
        } else {
            false
        }
    }

    /// The answer, if it came.
    pub fn into_reply(self) -> (r: Option<Vec<u8>>)
        ensures
            r is Some <==> self.spec_reply() is Some,
            r matches Some(v) ==> Some(v@) == self.spec_reply(),
    {
        self.reply
    }
}

/// What one incoming message means for a dump.
#[derive(Clone, Copy, Debug, PartialEq, Eq, Structural)]
pub enum BulkStep {
    /// The control-ping reply: the dump is over.
    Done,
    /// One more reply of the dump.
    Reply,
    /// Some other message, passed over.
    Skip,
}

/// The replies of a dump among `msgs` (id and body of each message, in the
/// order they came): the bodies of those whose id is the reply's, unless
/// that id is also the control-ping reply's.
pub open spec fn bulk_replies(msgs: Seq<(u16, Seq<u8>)>, reply_id: u16, ping_reply_id: u16) -> Seq<
    Seq<u8>,
>
    decreases msgs.len(),
{
    if msgs.len() == 0 {
        Seq::empty()
    } else {
        let prev = bulk_replies(msgs.drop_last(), reply_id, ping_reply_id);
        let last = msgs.last();
        if last.0 != ping_reply_id && last.0 == reply_id {
            prev.push(last.1)
        } else {
            prev
        }
    }
}

/// Sorts the messages that follow a dump: its replies, passed over
/// messages, and the control-ping reply that closes it.
pub struct BulkCollector {
    reply_id: u16,
    ping_reply_id: u16,
    done: bool,
    seen: Ghost<Seq<(u16, Seq<u8>)>>,
}

impl BulkCollector {
    pub closed spec fn spec_reply_id(&self) -> u16 {
        self.reply_id
    }

    pub closed spec fn spec_ping_reply_id(&self) -> u16 {
        self.ping_reply_id
    }

    /// Messages taken in so far, in order.
    pub closed spec fn spec_seen(&self) -> Seq<(u16, Seq<u8>)> {
        self.seen@
    }

    /// Replies of the dump among the messages seen so far, in order.
    pub closed spec fn spec_replies(&self) -> Seq<Seq<u8>> {
        bulk_replies(self.seen@, self.reply_id, self.ping_reply_id)
    }

    /// Whether the control-ping reply came.
    pub closed spec fn spec_done(&self) -> bool {
        self.done
    }

    /// The dump is over once (and only once) the control-ping reply was
    /// seen, which is then the last message seen.
    pub closed spec fn wf(&self) -> bool {
        &&& forall|i: int|
            0 <= i < self.seen@.len() - 1 ==> #[trigger] self.seen@[i].0 != self.ping_reply_id
        &&& self.done == (self.seen@.len() > 0 && self.seen@.last().0 == self.ping_reply_id)
    }

    /// Starts gathering replies with id `reply_id` until the message with id
    /// `ping_reply_id` comes.
    pub fn new(reply_id: u16, ping_reply_id: u16) -> (c: BulkCollector)
        ensures
            c.wf(),
            c.spec_reply_id() == reply_id,
            c.spec_ping_reply_id() == ping_reply_id,
            c.spec_seen() == Seq::<(u16, Seq<u8>)>::empty(),
            c.spec_replies() == Seq::<Seq<u8>>::empty(),
            !c.spec_done(),
    {
        BulkCollector { reply_id, ping_reply_id, done: false, seen: Ghost(Seq::empty()) }
    }

    /// Takes in the next incoming message: the control-ping reply ends the
    /// dump, a reply of the dump is kept, anything else is passed over.
    pub fn receive(&mut self, msg_id: u16, data: &[u8]) -> (step: BulkStep)
        requires
            old(self).wf(),
            !old(self).spec_done(),
        ensures
            final(self).wf(),
            final(self).spec_reply_id() == old(self).spec_reply_id(),
            final(self).spec_ping_reply_id() == old(self).spec_ping_reply_id(),
            final(self).spec_seen() == old(self).spec_seen().push((msg_id, data@)),
            step == (if msg_id == old(self).spec_ping_reply_id() {
                BulkStep::Done
            } else if msg_id == old(self).spec_reply_id() {
                BulkStep::Reply
            } else {
                BulkStep::Skip
            }),
            final(self).spec_done() == (step == BulkStep::Done),
            final(self).spec_replies() == (if step == BulkStep::Reply {
                old(self).spec_replies().push(data@)
            } else {
                old(self).spec_replies()
            }),
    {
        let ghost old_seen = self.seen@;
        self.seen = Ghost(old_seen.push((msg_id, data@)));
        proof {
            assert(self.seen@.drop_last() =~= old_seen);
        }
        if msg_id == self.ping_reply_id {
            self.done = true;
            BulkStep::Done
        } else if msg_id == self.reply_id {
            BulkStep::Reply
        } else {
            BulkStep::Skip
        }
    }

    /// Whether the control-ping reply came.
    pub fn is_done(&self) -> (b: bool)
        ensures
            b == self.spec_done(),
    {
        self.done
    }
}

/// Decoding an encoded control-ping body gives it back.
pub proof fn lemma_control_ping_decode_encode(p: ControlPing)
    ensures
        p.spec_encode().len() == 8,
        ControlPing::spec_decode(p.spec_encode()) == p,
{
    lemma_pow256_values();
    lemma_be_roundtrip(p.client_index as nat, 4);
    lemma_be_roundtrip(p.context as nat, 4);
    let e = p.spec_encode();
    assert(e.subrange(0, 4) =~= be_bytes(p.client_index as nat, 4));
    assert(e.subrange(4, 8) =~= be_bytes(p.context as nat, 4));
}

/// Decoding an encoded control-ping reply body gives it back.
pub proof fn lemma_control_ping_reply_decode_encode(r: ControlPingReply)
    ensures
        r.spec_encode().len() == 16,
        ControlPingReply::spec_decode(r.spec_encode()) == r,
{
    lemma_pow256_values();
    let bits = (if r.retval >= 0 {
        r.retval as int
    } else {
        r.retval + 0x1_0000_0000
    }) as nat;
    lemma_be_roundtrip(r.context as nat, 4);
    lemma_be_roundtrip(bits, 4);
    lemma_be_roundtrip(r.client_index as nat, 4);
    lemma_be_roundtrip(r.vpe_pid as nat, 4);
    let e = r.spec_encode();
    assert(e.subrange(0, 4) =~= be_bytes(r.context as nat, 4));
    assert(e.subrange(4, 8) =~= be_bytes(bits, 4));
    assert(e.subrange(8, 12) =~= be_bytes(r.client_index as nat, 4));
    assert(e.subrange(12, 16) =~= be_bytes(r.vpe_pid as nat, 4));
    assert(signed32(bits) == r.retval as int);
}

/// Splitting a request into id and rest gives back the id it was laid out
/// with and its body.
pub proof fn lemma_request_split(msg_id: u16, body: Seq<u8>)
    ensures
        spec_request(msg_id, body).len() >= 2,
        spec_msg_id(spec_request(msg_id, body)) == msg_id,
        spec_request(msg_id, body).subrange(2, spec_request(msg_id, body).len() as int) == body,
{
    lemma_pow256_values();
    lemma_be_roundtrip(msg_id as nat, 2);
    let r = spec_request(msg_id, body);
    assert(r.subrange(0, 2) =~= be_bytes(msg_id as nat, 2));
    assert(r.subrange(2, r.len() as int) =~= body);
}

/// Wire layout of a control-ping body: `client_index` (4 bytes at 0), then
/// `context` (4 bytes at 4), most significant byte first.
pub proof fn lemma_control_ping_layout(b: Seq<u8>)
    requires
        b.len() >= 8,
    ensures
        ({
            let p = ControlPing::spec_decode(b);
            &&& p.client_index as int == b[0] * 0x100_0000 + b[1] * 0x1_0000 + b[2] * 0x100 + b[3]
            &&& p.context as int == b[4] * 0x100_0000 + b[5] * 0x1_0000 + b[6] * 0x100 + b[7]
        }),
{
    lemma_u32_at(b, 0);
    lemma_u32_at(b, 4);
}

/// Wire layout of a control-ping reply body. Its fields sit in the order
/// they are declared, 4 bytes each: `context` at 0, `retval` at 4 (two's
/// complement), `client_index` at 8, `vpe_pid` at 12, most significant
/// byte first.
pub proof fn lemma_control_ping_reply_layout(b: Seq<u8>)
    requires
        b.len() >= 16,
    ensures
        ({
            let r = ControlPingReply::spec_decode(b);
            let v = b[4] * 0x100_0000 + b[5] * 0x1_0000 + b[6] * 0x100 + b[7];
            &&& r.context as int == b[0] * 0x100_0000 + b[1] * 0x1_0000 + b[2] * 0x100 + b[3]
            &&& r.retval as int == (if v < 0x8000_0000 {
                v
            } else {
                v - 0x1_0000_0000
            })
            &&& r.client_index as int == b[8] * 0x100_0000 + b[9] * 0x1_0000 + b[10] * 0x100
                + b[11]
            &&& r.vpe_pid as int == b[12] * 0x100_0000 + b[13] * 0x1_0000 + b[14] * 0x100 + b[15]
        }),
{
    lemma_u32_at(b, 0);
    lemma_u32_at(b, 4);
    lemma_u32_at(b, 8);
    lemma_u32_at(b, 12);
}

/// An encoded control-ping reply body holds each field at its place in the
/// layout of `lemma_control_ping_reply_layout`, and is 16 bytes long.
pub proof fn lemma_control_ping_reply_encode_layout(r: ControlPingReply)
    ensures
        ({
            let e = r.spec_encode();
            let v = e[4] * 0x100_0000 + e[5] * 0x1_0000 + e[6] * 0x100 + e[7];
            &&& e.len() == 16
            &&& r.context as int == e[0] * 0x100_0000 + e[1] * 0x1_0000 + e[2] * 0x100 + e[3]
            &&& r.retval as int == (if v < 0x8000_0000 {
                v
            } else {
                v - 0x1_0000_0000
            })
            &&& r.client_index as int == e[8] * 0x100_0000 + e[9] * 0x1_0000 + e[10] * 0x100
                + e[11]
            &&& r.vpe_pid as int == e[12] * 0x100_0000 + e[13] * 0x1_0000 + e[14] * 0x100 + e[15]
        }),
{
    lemma_control_ping_reply_decode_encode(r);
    lemma_control_ping_reply_layout(r.spec_encode());
}

/// The control-ping request that closes a dump: the ping's message id
/// (2 bytes), the client index (4 bytes), then a context of 0 (4 bytes),
/// most significant byte first.
pub proof fn lemma_control_ping_request_layout(ping_id: u16, client_index: u32)
    ensures
        ({
            let q = spec_request(ping_id, ControlPing { client_index, context: 0 }.spec_encode());
            &&& q.len() == 10
            &&& ping_id as int == q[0] * 0x100 + q[1]
            &&& client_index as int == q[2] * 0x100_0000 + q[3] * 0x1_0000 + q[4] * 0x100 + q[5]
            &&& q[6] == 0 && q[7] == 0 && q[8] == 0 && q[9] == 0
        }),
{
    let p = ControlPing { client_index, context: 0 };
    lemma_control_ping_decode_encode(p);
    lemma_request_split(ping_id, p.spec_encode());
    let q = spec_request(ping_id, p.spec_encode());
    let body = q.subrange(2, q.len() as int);
    lemma_control_ping_layout(body);
    lemma_u16_at(q, 0);
    assert(q.subrange(0, 2) =~= q.subrange(0, 2));
    assert(body[0] == q[2] && body[1] == q[3] && body[2] == q[4] && body[3] == q[5]);
    assert(body[4] == q[6] && body[5] == q[7] && body[6] == q[8] && body[7] == q[9]);
}

} // verus!
