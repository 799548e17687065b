//! Framing of the AF_UNIX API socket: every message is preceded by a
//! 16-byte header that carries its length, and the first two bytes of a
//! message hold its numeric id.
use vstd::prelude::*;
use crate::wire::{
    be_bytes, be_value, get_u32, get_u64, lemma_be_bytes_len, lemma_be_bytes_of_value,
    lemma_be_roundtrip, lemma_be_value_bound, lemma_pow256_values, push_bytes, put_u32, put_u64,
    get_u16, lemma_u32_at, lemma_u64_at,
};

verus! {

/// Header that precedes every message on the API socket.
#[derive(Clone, Copy, Debug, PartialEq, Eq, Structural)]
pub struct SockMsgHeader {
    pub _q: u64,
    pub msglen: u32,
    pub gc_mark: u32,
}

/// Size in bytes of an encoded [`SockMsgHeader`].
pub const SOCK_MSG_HEADER_LEN: usize = 16;

impl SockMsgHeader {
    /// The 16 bytes that stand for the header on the socket.
    pub open spec fn spec_encode(self) -> Seq<u8> {
        be_bytes(self._q as nat, 8) + be_bytes(self.msglen as nat, 4) + be_bytes(
            self.gc_mark as nat,
            4,
        )
    }

    /// The header that 16 bytes stand for.
    pub open spec fn spec_decode(b: Seq<u8>) -> SockMsgHeader {
        SockMsgHeader {
            _q: be_value(b.subrange(0, 8)) as u64,
            msglen: be_value(b.subrange(8, 12)) as u32,
            gc_mark: be_value(b.subrange(12, 16)) as u32,
        }
    }

    /// The header sent in front of a payload of `len` bytes.
    pub open spec fn spec_for_payload(len: nat) -> SockMsgHeader {
        SockMsgHeader { _q: 0, msglen: (len % 0x1_0000_0000) as u32, gc_mark: 0 }
    }

    /// The header sent in front of a payload of `len` bytes; the length
    /// field keeps the low 32 bits of `len`.
    pub fn for_payload(len: usize) -> (h: SockMsgHeader)
        ensures
            h == SockMsgHeader::spec_for_payload(len as nat),
            h._q == 0,
            h.msglen == len as nat % 0x1_0000_0000,
            h.gc_mark == 0,
    {
        SockMsgHeader { _q: 0, msglen: (len as u64 % 0x1_0000_0000) as u32, gc_mark: 0 }
    }

    /// Encodes the header.
    pub fn encode(&self) -> (b: Vec<u8>)
        ensures
            b@ == self.spec_encode(),
            b@.len() == SOCK_MSG_HEADER_LEN,
    {
        let mut b: Vec<u8> = Vec::new();
        put_u64(&mut b, self._q);
        put_u32(&mut b, self.msglen);
        put_u32(&mut b, self.gc_mark);
        proof {
            lemma_be_bytes_len(self._q as nat, 8);
            lemma_be_bytes_len(self.msglen as nat, 4);
            lemma_be_bytes_len(self.gc_mark as nat, 4);
            assert(b@ =~= self.spec_encode());
        }
        b
    }

    /// Decodes a header from the 16 bytes read off the socket.
    pub fn decode(b: &[u8]) -> (h: SockMsgHeader)
        requires
            b@.len() == SOCK_MSG_HEADER_LEN,
        ensures
            h == SockMsgHeader::spec_decode(b@),
    {
        SockMsgHeader { _q: get_u64(b, 0), msglen: get_u32(b, 8), gc_mark: get_u32(b, 12) }
    }
}

/// Decoding an encoded header gives the header back.
pub proof fn lemma_header_decode_encode(h: SockMsgHeader)
    ensures
        h.spec_encode().len() == SOCK_MSG_HEADER_LEN,
        SockMsgHeader::spec_decode(h.spec_encode()) == h,
{
    lemma_pow256_values();
    lemma_be_roundtrip(h._q as nat, 8);
    lemma_be_roundtrip(h.msglen as nat, 4);
    lemma_be_roundtrip(h.gc_mark as nat, 4);
    let e = h.spec_encode();
    assert(e.subrange(0, 8) =~= be_bytes(h._q as nat, 8));
    assert(e.subrange(8, 12) =~= be_bytes(h.msglen as nat, 4));
    assert(e.subrange(12, 16) =~= be_bytes(h.gc_mark as nat, 4));
}

/// Encoding a decoded header gives the 16 bytes back.
pub proof fn lemma_header_encode_decode(b: Seq<u8>)
    requires
        b.len() == SOCK_MSG_HEADER_LEN,
    ensures
        SockMsgHeader::spec_decode(b).spec_encode() == b,
{
    lemma_pow256_values();
    let (p0, p1, p2) = (b.subrange(0, 8), b.subrange(8, 12), b.subrange(12, 16));
    lemma_be_value_bound(p0);
    lemma_be_value_bound(p1);
    lemma_be_value_bound(p2);
    lemma_be_bytes_of_value(p0);
    lemma_be_bytes_of_value(p1);
    lemma_be_bytes_of_value(p2);
    assert(b =~= p0 + p1 + p2);
}

/// A header built for a payload of fewer than `2^32` bytes announces
/// exactly that many bytes to the reader that decodes it.
pub proof fn lemma_header_announces_payload_len(len: nat)
    requires
        len < 0x1_0000_0000,
    ensures
        ({
            let h = SockMsgHeader { _q: 0, msglen: len as u32, gc_mark: 0 };
            SockMsgHeader::spec_decode(h.spec_encode()).msglen == len
        }),
{
    lemma_header_decode_encode(SockMsgHeader { _q: 0, msglen: len as u32, gc_mark: 0 });
}

/// Gathers the body of one message, chunk by chunk, once its header has
/// been read: the body is complete as soon as at least as many bytes as the
/// header announced have arrived.
pub struct MsgAssembler {
    target: usize,
    data: Vec<u8>,
}

impl MsgAssembler {
    /// Number of bytes the header announced.
    pub closed spec fn target(&self) -> nat {
        self.target as nat
    }

    /// Bytes received so far.
    pub closed spec fn received(&self) -> Seq<u8> {
        self.data@
    }

    /// Starts a message from the 16 header bytes read off the socket.
    pub fn new(header: &[u8]) -> (a: MsgAssembler)
        requires
            header@.len() == SOCK_MSG_HEADER_LEN,
        ensures
            a.target() == SockMsgHeader::spec_decode(header@).msglen,
            a.received() == Seq::<u8>::empty(),
    {
        let h = SockMsgHeader::decode(header);
        MsgAssembler { target: h.msglen as usize, data: Vec::new() }
    }

    /// Number of bytes the header announced.
    pub fn target_len(&self) -> (n: usize)
        ensures
            n == self.target(),
    {
        self.target
    }

    /// Whether enough bytes have arrived.
    pub fn is_complete(&self) -> (b: bool)
        ensures
            b == (self.received().len() >= self.target()),
    {
        self.data.len() >= self.target
    }

    /// Takes in the next chunk read off the socket; tells whether the
    /// message is then complete.
    pub fn receive(&mut self, chunk: &[u8]) -> (done: bool)
        ensures
            final(self).target() == old(self).target(),
            final(self).received() == old(self).received() + chunk@,
            done == (final(self).received().len() >= final(self).target()),
    {
        push_bytes(&mut self.data, chunk, 0, chunk.len());
        assert(chunk@.subrange(0, chunk@.len() as int) =~= chunk@);
        self.data.len() >= self.target
    }

    /// The bytes received, all of them, in the order they came.
    pub fn into_message(self) -> (m: Vec<u8>)
        ensures
            m@ == self.received(),
    {
        self.data
    }
}

/// The numeric id that a message starts with.
pub open spec fn spec_msg_id(msg: Seq<u8>) -> u16 {
    be_value(msg.subrange(0, 2)) as u16
}

/// Splits a message into its id (its first two bytes, big-endian) and the
/// rest of it.
pub fn split_msg_id(msg: &[u8]) -> (r: (u16, Vec<u8>))
    requires
        msg@.len() >= 2,
    ensures
        r.0 as nat == be_value(msg@.subrange(0, 2)),
        r.0 == spec_msg_id(msg@),
        r.1@ == msg@.subrange(2, msg@.len() as int),
{
    let id = get_u16(msg, 0);
    let mut rest: Vec<u8> = Vec::new();
    push_bytes(&mut rest, msg, 2, msg.len());
    (id, rest)
}

/// Reading back a written payload: the reader decodes the header written in
/// front of a payload of fewer than `2^32` bytes, and an assembler started
/// from it that has received exactly the payload's bytes is complete and
/// holds the payload. The length it waits for is the payload's, so no
/// shorter part of the payload completes it.
pub proof fn lemma_write_then_read(buf: Seq<u8>, a: MsgAssembler)
    requires
        buf.len() < 0x1_0000_0000,
        a.target() == SockMsgHeader::spec_decode(
            SockMsgHeader::spec_for_payload(buf.len()).spec_encode(),
        ).msglen,
        a.received() == buf,
    ensures
        a.target() == buf.len(),
        a.received().len() >= a.target(),
{
    let h = SockMsgHeader::spec_for_payload(buf.len());
    lemma_header_decode_encode(h);
    assert(buf.len() % 0x1_0000_0000 == buf.len());
}

/// Wire layout of the socket header: `_q` (8 bytes at 0), `msglen`
/// (4 bytes at 8), `gc_mark` (4 bytes at 12), most significant byte first.
pub proof fn lemma_header_layout(b: Seq<u8>)
    requires
        b.len() == SOCK_MSG_HEADER_LEN,
    ensures
        ({
            let h = SockMsgHeader::spec_decode(b);
            &&& h._q as int == b[0] * 0x100_0000_0000_0000 + b[1] * 0x1_0000_0000_0000 + b[2]
                * 0x100_0000_0000 + b[3] * 0x1_0000_0000 + b[4] * 0x100_0000 + b[5] * 0x1_0000
                + b[6] * 0x100 + b[7]
            &&& h.msglen as int == b[8] * 0x100_0000 + b[9] * 0x1_0000 + b[10] * 0x100 + b[11]
            &&& h.gc_mark as int == b[12] * 0x100_0000 + b[13] * 0x1_0000 + b[14] * 0x100 + b[15]
        }),
{
    lemma_u64_at(b, 0);
    lemma_u32_at(b, 8);
    lemma_u32_at(b, 12);
}

} // verus!
