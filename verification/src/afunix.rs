//! The AF_UNIX socket transport: the messages of its connection handshake
//! and the state that the handshake leaves behind (the client index and
//! the table of message ids).
use vstd::prelude::*;
use vstd::string::StringSliceAdditionalSpecFns;
use crate::msg_table::MessageTable;
use crate::wire::{lemma_u16_at, lemma_u32_at};
use crate::text::{field_name, lemma_ascii_name_field_roundtrip, name_from_field};
use vstd::utf8::{encode_utf8, is_ascii_chars};
use crate::wire::{
    be_bytes, be_value, get_i32, get_u16, get_u32, lemma_be_bytes_len,
    lemma_be_roundtrip, lemma_be_value_bound, lemma_pow256_values, push_bytes, put_u16, put_u32,
    signed32,
};

verus! {

/// Message id of the client-create request on the API socket.
pub const SOCKCLNT_CREATE_MSG_ID: u16 = 15;

/// Context that the client-create request carries.
pub const SOCKCLNT_CREATE_CONTEXT: u32 = 124;

/// Size in bytes of the fixed part of the client-create reply.
pub const REPLY_HDR_LEN: usize = 20;

/// Size in bytes of one entry of the message table in the client-create reply.
pub const REPLY_ENTRY_LEN: usize = 66;

/// Size in bytes of a name field.
pub const NAME_FIELD_LEN: usize = 64;

/// The client-create request: asks VPP for a client index and its table
/// of message ids.
#[derive(Clone, Copy, Debug)]
pub struct MsgSockClntCreate {
    pub _vl_msg_id: u16,
    pub context: u32,
    pub name: [u8; 64],
}

/// The fixed part of the reply to [`MsgSockClntCreate`].
#[derive(Clone, Copy, Debug, PartialEq, Eq, Structural)]
pub struct MsgSockClntCreateReplyHdr {
    pub _vl_msg_id: u16,
    pub client_index: u32,
    pub context: u32,
    pub response: i32,
    pub index: u32,
    pub count: u16,
}

/// One entry of the message table that follows [`MsgSockClntCreateReplyHdr`].
#[derive(Clone, Copy, Debug)]
pub struct MsgSockClntCreateReplyEntry {
    pub index: u16,
    pub name: [u8; 64],
}

/// The name field for `name`: its UTF-8 bytes, then NUL bytes up to 64.
pub open spec fn padded_name(name: Seq<u8>) -> Seq<u8> {
    name + Seq::new((64 - name.len()) as nat, |i: int| 0u8)
}

/// Builds the name field for `name`, whose UTF-8 form must fit in 64 bytes.
pub fn name_field(name: &str) -> (f: [u8; 64])
    requires
        name.spec_bytes().len() <= 64,
    ensures
        f@ == padded_name(name.spec_bytes()),
{
    let bytes = name.as_bytes();
    let mut f = [0u8; 64];
    let mut i: usize = 0;
    while i < bytes.len()
        invariant
            bytes@ == name.spec_bytes(),
            bytes@.len() <= 64,
            i <= bytes@.len(),
            f@.len() == 64,
            forall|j: int| 0 <= j < i ==> f@[j] == bytes@[j],
            forall|j: int| i <= j < 64 ==> f@[j] == 0,
        decreases bytes@.len() - i,
    {
        f[i] = bytes[i];
        i = i + 1;
    }
    assert(f@ =~= padded_name(name.spec_bytes()));
    f
}

/// Copies `src[start..start + 64]` into a name field.
fn name_field_from(src: &[u8], start: usize) -> (f: [u8; 64])
    requires
        start + 64 <= src.len(),
    ensures
        f@ == src@.subrange(start as int, start + 64),
{
    let mut f = [0u8; 64];
    let mut i: usize = 0;
    while i < 64
        invariant
            start + 64 <= src.len(),
            i <= 64,
            f@.len() == 64,
            forall|j: int| 0 <= j < i ==> f@[j] == src@[start + j],
        decreases 64 - i,
    {
        f[i] = src[start + i];
        i = i + 1;
    }
    assert(f@ =~= src@.subrange(start as int, start + 64));
    f
}

impl MsgSockClntCreate {
    /// The request that registers a client under `name`.
    pub fn for_client(name: &str) -> (m: MsgSockClntCreate)
        requires
            name.spec_bytes().len() <= 64,
        ensures
            m._vl_msg_id == SOCKCLNT_CREATE_MSG_ID,
            m.context == SOCKCLNT_CREATE_CONTEXT,
            m.name@ == padded_name(name.spec_bytes()),
    {
        MsgSockClntCreate {
            _vl_msg_id: SOCKCLNT_CREATE_MSG_ID,
            context: SOCKCLNT_CREATE_CONTEXT,
            name: name_field(name),
        }
    }

    /// The 70 bytes that stand for the request.
    pub open spec fn spec_encode(self) -> Seq<u8> {
        be_bytes(self._vl_msg_id as nat, 2) + be_bytes(self.context as nat, 4) + self.name@
    }

    /// The request that 70 bytes stand for.
    pub open spec fn spec_decode(b: Seq<u8>) -> (Seq<u8>, u16, u32) {
        (b.subrange(6, 70), be_value(b.subrange(0, 2)) as u16, be_value(b.subrange(2, 6)) as u32)
    }

    /// Encodes the request.
    pub fn encode(&self) -> (b: Vec<u8>)
        ensures
            b@ == self.spec_encode(),
            b@.len() == 70,
    {
        let mut b: Vec<u8> = Vec::new();
        put_u16(&mut b, self._vl_msg_id);
        put_u32(&mut b, self.context);
        let name: &[u8] = self.name.as_slice();
        push_bytes(&mut b, name, 0, 64);
        proof {
            lemma_be_bytes_len(self._vl_msg_id as nat, 2);
            lemma_be_bytes_len(self.context as nat, 4);
            assert(name@.subrange(0, 64) =~= self.name@);
            assert(b@ =~= self.spec_encode());
        }
        b
    }

    /// Decodes a request from its 70 bytes.
    pub fn decode(b: &[u8]) -> (m: MsgSockClntCreate)
        requires
            b@.len() == 70,
        ensures
            (m.name@, m._vl_msg_id, m.context) == MsgSockClntCreate::spec_decode(b@),
    {
        MsgSockClntCreate {
            _vl_msg_id: get_u16(b, 0),
            context: get_u32(b, 2),
            name: name_field_from(b, 6),
        }
    }
}

impl MsgSockClntCreateReplyHdr {
    /// The 20 bytes that stand for the header.
    pub open spec fn spec_encode(self) -> Seq<u8> {
        be_bytes(self._vl_msg_id as nat, 2) + be_bytes(self.client_index as nat, 4) + be_bytes(
            self.context as nat,
            4,
        ) + be_bytes((if self.response >= 0 {
            self.response as int
        } else {
            self.response + 0x1_0000_0000
        }) as nat, 4) + be_bytes(self.index as nat, 4) + be_bytes(self.count as nat, 2)
    }

    /// The header that the first 20 bytes of `b` stand for.
    pub open spec fn spec_decode(b: Seq<u8>) -> MsgSockClntCreateReplyHdr {
        MsgSockClntCreateReplyHdr {
            _vl_msg_id: be_value(b.subrange(0, 2)) as u16,
            client_index: be_value(b.subrange(2, 6)) as u32,
            context: be_value(b.subrange(6, 10)) as u32,
            response: signed32(be_value(b.subrange(10, 14))) as i32,
            index: be_value(b.subrange(14, 18)) as u32,
            count: be_value(b.subrange(18, 20)) as u16,
        }
    }

    /// Decodes the header from the first 20 bytes of a reply.
    pub fn decode(b: &[u8]) -> (h: MsgSockClntCreateReplyHdr)
        requires
            b@.len() >= REPLY_HDR_LEN,
        ensures
            h == MsgSockClntCreateReplyHdr::spec_decode(b@),
    {
        MsgSockClntCreateReplyHdr {
            _vl_msg_id: get_u16(b, 0),
            client_index: get_u32(b, 2),
            context: get_u32(b, 6),
            response: get_i32(b, 10),
            index: get_u32(b, 14),
            count: get_u16(b, 18),
        }
    }

    /// Encodes the header.
    pub fn encode(&self) -> (b: Vec<u8>)
        ensures
            b@ == self.spec_encode(),
            b@.len() == REPLY_HDR_LEN,
    {
        let mut b: Vec<u8> = Vec::new();
        put_u16(&mut b, self._vl_msg_id);
        put_u32(&mut b, self.client_index);
        put_u32(&mut b, self.context);
        let r: u32 = if self.response >= 0 {
            self.response as u32
        } else {
            ((self.response + 0x4000_0000 + 0x4000_0000) as u32) + 0x8000_0000
        };
        put_u32(&mut b, r);
        put_u32(&mut b, self.index);
        put_u16(&mut b, self.count);
        proof {
            lemma_be_bytes_len(self._vl_msg_id as nat, 2);
            lemma_be_bytes_len(self.client_index as nat, 4);
            lemma_be_bytes_len(self.context as nat, 4);
            lemma_be_bytes_len(r as nat, 4);
            lemma_be_bytes_len(self.index as nat, 4);
            lemma_be_bytes_len(self.count as nat, 2);
            assert(b@ =~= self.spec_encode());
        }
        b
    }
}

impl MsgSockClntCreateReplyEntry {
    /// The 66 bytes that stand for the entry.
    pub open spec fn spec_encode(self) -> Seq<u8> {
        be_bytes(self.index as nat, 2) + self.name@
    }

    /// Decodes the entry that starts at `start`.
    pub fn decode(b: &[u8], start: usize) -> (e: MsgSockClntCreateReplyEntry)
        requires
            start + REPLY_ENTRY_LEN <= b.len(),
        ensures
            e.index == entry_index(b@, start as int),
            e.name@ == entry_name_field(b@, start as int),
    {
        MsgSockClntCreateReplyEntry { index: get_u16(b, start), name: name_field_from(b, start + 2) }
    }

    /// Encodes the entry.
    pub fn encode(&self) -> (b: Vec<u8>)
        ensures
            b@ == self.spec_encode(),
            b@.len() == REPLY_ENTRY_LEN,
    {
        let mut b: Vec<u8> = Vec::new();
        put_u16(&mut b, self.index);
        let name: &[u8] = self.name.as_slice();
        push_bytes(&mut b, name, 0, 64);
        proof {
            lemma_be_bytes_len(self.index as nat, 2);
            assert(name@.subrange(0, 64) =~= self.name@);
            assert(b@ =~= self.spec_encode());
        }
        b
    }
}

/// The message id held by the table entry that starts at `start`.
pub open spec fn entry_index(b: Seq<u8>, start: int) -> u16 {
    be_value(b.subrange(start, start + 2)) as u16
}

/// The name field of the table entry that starts at `start`.
pub open spec fn entry_name_field(b: Seq<u8>, start: int) -> Seq<u8> {
    b.subrange(start + 2, start + 66)
}

/// Offset of the `i`-th entry of the message table in a client-create reply.
pub open spec fn entry_offset(i: int) -> int {
    20 + 66 * i
}

/// Number of table entries that a client-create reply announces.
pub open spec fn reply_count(b: Seq<u8>) -> nat {
    be_value(b.subrange(18, 20))
}

/// The reply holds its header and every table entry that it announces.
pub open spec fn reply_fits(b: Seq<u8>) -> bool {
    &&& b.len() >= 20
    &&& b.len() >= entry_offset(reply_count(b) as int)
}

/// The table `m` after the first `k` entries of reply `b` were recorded in
/// order, a later entry for a name replacing an earlier one.
pub open spec fn table_after(m: Map<Seq<char>, u16>, b: Seq<u8>, k: nat) -> Map<Seq<char>, u16>
    decreases k,
{
    if k == 0 {
        m
    } else {
        let i = (k - 1) as int;
        table_after(m, b, (k - 1) as nat).insert(entry_name(b, i), entry_index(b, entry_offset(i)))
    }
}

/// Whether a client-create reply holds every table entry that it
/// announces.
pub fn reply_is_complete(b: &[u8]) -> (ok: bool)
    ensures
        ok == reply_fits(b@),
{
    if b.len() < REPLY_HDR_LEN {
        return false;
    }
    let count = get_u16(b, 18) as usize;
    b.len() - REPLY_HDR_LEN >= count * REPLY_ENTRY_LEN
}

/// State of the AF_UNIX socket transport that outlives a single call: where
/// the socket is, whether it is connected, and what the client-create
/// handshake taught.
pub struct Transport {
    connected: bool,
    sock_path: String,
    message_name_to_id: MessageTable,
    message_max_index: u16,
    client_index: u32,
}

impl Transport {
    pub closed spec fn wf(&self) -> bool {
        self.message_name_to_id.wf()
    }

    pub closed spec fn spec_connected(&self) -> bool {
        self.connected
    }

    pub closed spec fn spec_sock_path(&self) -> Seq<char> {
        self.sock_path@
    }

    /// Message names and their ids.
    pub closed spec fn spec_table(&self) -> Map<Seq<char>, u16> {
        self.message_name_to_id@
    }

    /// Number of table entries announced by the last handshake.
    pub closed spec fn spec_max_index(&self) -> u16 {
        self.message_max_index
    }

    pub closed spec fn spec_client_index(&self) -> u32 {
        self.client_index
    }

    /// A transport for the socket at `path`, not connected yet.
    pub fn new(path: &str) -> (t: Transport)
        ensures
            t.wf(),
            !t.spec_connected(),
            t.spec_sock_path() == path@,
            t.spec_table() == Map::<Seq<char>, u16>::empty(),
            t.spec_max_index() == 0,
            t.spec_client_index() == 0,
    {
        Transport {
            connected: false,
            sock_path: path.to_owned(),
            message_name_to_id: MessageTable::new(),
            message_max_index: 0,
            client_index: 0,
        }
    }

    /// Path of the socket.
    pub fn sock_path(&self) -> (p: &str)
        ensures
            p@ == self.spec_sock_path(),
    {
        self.sock_path.as_str()
    }

    /// Whether the socket is connected.
    pub fn is_connected(&self) -> (b: bool)
        ensures
            b == self.spec_connected(),
    {
        self.connected
    }

    /// Records that the socket is now connected.
    pub fn set_connected(&mut self)
        ensures
            final(self).spec_connected(),
            final(self).wf() == old(self).wf(),
            final(self).spec_sock_path() == old(self).spec_sock_path(),
            final(self).spec_table() == old(self).spec_table(),
            final(self).spec_max_index() == old(self).spec_max_index(),
            final(self).spec_client_index() == old(self).spec_client_index(),
    {
        self.connected = true;
    }

    /// The encoded client-create request for a client called `name`, whose
    /// UTF-8 form must fit in 64 bytes.
    pub fn sockclnt_create_request(name: &str) -> (b: Vec<u8>)
        requires
            name.spec_bytes().len() <= 64,
        ensures
            b@ == be_bytes(SOCKCLNT_CREATE_MSG_ID as nat, 2) + be_bytes(
                SOCKCLNT_CREATE_CONTEXT as nat,
                4,
            ) + padded_name(name.spec_bytes()),
    {
        MsgSockClntCreate::for_client(name).encode()
    }

    /// Takes in the reply to the client-create request: the client index
    /// becomes the header's `index`, the announced entry count is kept, and
    /// every entry of the message table is recorded in order.
    pub fn apply_sockclnt_create_reply(&mut self, reply: &[u8])
        requires
            old(self).wf(),
            reply_fits(reply@),
        ensures
            final(self).wf(),
            final(self).spec_client_index() == MsgSockClntCreateReplyHdr::spec_decode(
                reply@,
            ).index,
            final(self).spec_max_index() == MsgSockClntCreateReplyHdr::spec_decode(reply@).count,
            final(self).spec_client_index() as int == reply@[14] * 0x100_0000 + reply@[15]
                * 0x1_0000 + reply@[16] * 0x100 + reply@[17],
            final(self).spec_max_index() as int == reply@[18] * 0x100 + reply@[19],
            final(self).spec_table() == table_after(
                old(self).spec_table(),
                reply@,
                reply_count(reply@),
            ),
            final(self).spec_connected() == old(self).spec_connected(),
            final(self).spec_sock_path() == old(self).spec_sock_path(),
    {
        let hdr = MsgSockClntCreateReplyHdr::decode(reply);
        self.client_index = hdr.index;
        self.message_max_index = hdr.count;
        let count = hdr.count as usize;
        proof {
            lemma_be_value_bound(reply@.subrange(18, 20));
            lemma_pow256_values();
        }
        let mut i: usize = 0;
        while i < count
            invariant
                reply_fits(reply@),
                count == reply_count(reply@),
                i <= count,
                self.message_name_to_id.wf(),
                self.message_name_to_id@ == table_after(
                    old(self).message_name_to_id@,
                    reply@,
                    i as nat,
                ),
                self.client_index == hdr.index,
                self.message_max_index == hdr.count,
                hdr == MsgSockClntCreateReplyHdr::spec_decode(reply@),
                self.connected == old(self).connected,
                self.sock_path == old(self).sock_path,
            decreases count - i,
        {
            proof {
                assert(20 + 66 * i + 66 <= 20 + 66 * count) by (nonlinear_arith)
                    requires
                        i < count,
                ;
                assert(reply@.len() == reply.len());
            }
            let ofs = REPLY_HDR_LEN + i * REPLY_ENTRY_LEN;
            let entry = MsgSockClntCreateReplyEntry::decode(reply, ofs);
            let name = name_from_field(entry.name.as_slice());
            self.message_name_to_id.insert(name, entry.index);
            i = i + 1;
        }
        assert(reply_count(reply@) == hdr.count);
        proof {
            lemma_reply_hdr_layout(reply@);
        }
    }

    /// Forgets the connection; tells whether there was one, in which case
    /// the caller closes the socket.
    pub fn disconnect(&mut self) -> (was_connected: bool)
        ensures
            was_connected == old(self).spec_connected(),
            !final(self).spec_connected(),
            final(self).wf() == old(self).wf(),
            final(self).spec_sock_path() == old(self).spec_sock_path(),
            final(self).spec_table() == old(self).spec_table(),
            final(self).spec_max_index() == old(self).spec_max_index(),
            final(self).spec_client_index() == old(self).spec_client_index(),
    {
        if self.connected {
            self.connected = false;
            true
        } else {
            false
        }
    }

    /// The client index VPP assigned.
    pub fn get_client_index(&self) -> (c: u32)
        ensures
            c == self.spec_client_index(),
    {
        self.client_index
    }

    /// The id of the message called `name` (name and CRC), if VPP announced it.
    pub fn get_msg_index(&mut self, name: &str) -> (r: Option<u16>)
        requires
            old(self).wf(),
        ensures
            *final(self) == *old(self),
            r == (if old(self).spec_table().contains_key(name@) {
                Some(old(self).spec_table()[name@])
            } else {
                None
            }),
    {
        self.message_name_to_id.get(name)
    }

    /// This transport reports no table size: always 0.
    pub fn get_table_max_index(&mut self) -> (r: u16)
        ensures
            r == 0,
            *final(self) == *old(self),
    {
        0
    }
}

/// Decoding an encoded client-create request gives the request back.
pub proof fn lemma_create_decode_encode(m: MsgSockClntCreate)
    ensures
        m.spec_encode().len() == 70,
        MsgSockClntCreate::spec_decode(m.spec_encode()) == (m.name@, m._vl_msg_id, m.context),
{
    lemma_pow256_values();
    lemma_be_roundtrip(m._vl_msg_id as nat, 2);
    lemma_be_roundtrip(m.context as nat, 4);
    let e = m.spec_encode();
    assert(e.subrange(0, 2) =~= be_bytes(m._vl_msg_id as nat, 2));
    assert(e.subrange(2, 6) =~= be_bytes(m.context as nat, 4));
    assert(e.subrange(6, 70) =~= m.name@);
}

/// Decoding an encoded reply header gives the header back.
pub proof fn lemma_reply_hdr_decode_encode(h: MsgSockClntCreateReplyHdr)
    ensures
        h.spec_encode().len() == REPLY_HDR_LEN,
        MsgSockClntCreateReplyHdr::spec_decode(h.spec_encode()) == h,
{
    lemma_pow256_values();
    let r = (if h.response >= 0 {
        h.response as int
    } else {
        h.response + 0x1_0000_0000
    }) as nat;
    lemma_be_roundtrip(h._vl_msg_id as nat, 2);
    lemma_be_roundtrip(h.client_index as nat, 4);
    lemma_be_roundtrip(h.context as nat, 4);
    lemma_be_roundtrip(r, 4);
    lemma_be_roundtrip(h.index as nat, 4);
    lemma_be_roundtrip(h.count as nat, 2);
    let e = h.spec_encode();
    assert(e.subrange(0, 2) =~= be_bytes(h._vl_msg_id as nat, 2));
    assert(e.subrange(2, 6) =~= be_bytes(h.client_index as nat, 4));
    assert(e.subrange(6, 10) =~= be_bytes(h.context as nat, 4));
    assert(e.subrange(10, 14) =~= be_bytes(r, 4));
    assert(e.subrange(14, 18) =~= be_bytes(h.index as nat, 4));
    assert(e.subrange(18, 20) =~= be_bytes(h.count as nat, 2));
    assert(signed32(r) == h.response as int);
}

/// Decoding an encoded table entry gives the entry back.
pub proof fn lemma_reply_entry_decode_encode(e: MsgSockClntCreateReplyEntry)
    ensures
        e.spec_encode().len() == REPLY_ENTRY_LEN,
        entry_index(e.spec_encode(), 0) == e.index,
        entry_name_field(e.spec_encode(), 0) == e.name@,
{
    lemma_pow256_values();
    lemma_be_roundtrip(e.index as nat, 2);
    let b = e.spec_encode();
    assert(b.subrange(0, 2) =~= be_bytes(e.index as nat, 2));
    assert(b.subrange(2, 66) =~= e.name@);
}

/// The name carried by the `i`-th table entry of reply `b`.
pub open spec fn entry_name(b: Seq<u8>, i: int) -> Seq<char> {
    field_name(entry_name_field(b, entry_offset(i)))
}

/// After a handshake, a name maps to the id of the last table entry that
/// carries it.
pub proof fn lemma_table_after_last_entry_wins(
    m: Map<Seq<char>, u16>,
    b: Seq<u8>,
    k: nat,
    i: int,
)
    requires
        0 <= i < k,
        forall|j: int| i < j < k ==> #[trigger] entry_name(b, j) != entry_name(b, i),
    ensures
        table_after(m, b, k).contains_key(entry_name(b, i)),
        table_after(m, b, k)[entry_name(b, i)] == entry_index(b, entry_offset(i)),
    decreases k,
{
    if i < k - 1 {
        lemma_table_after_last_entry_wins(m, b, (k - 1) as nat, i);
        assert(entry_name(b, k - 1) != entry_name(b, i));
    }
}

/// After a handshake, a name that no table entry carries keeps what it had.
pub proof fn lemma_table_after_keeps_other_names(
    m: Map<Seq<char>, u16>,
    b: Seq<u8>,
    k: nat,
    name: Seq<char>,
)
    requires
        forall|j: int| 0 <= j < k ==> #[trigger] entry_name(b, j) != name,
    ensures
        table_after(m, b, k).contains_key(name) == m.contains_key(name),
        m.contains_key(name) ==> table_after(m, b, k)[name] == m[name],
    decreases k,
{
    if k > 0 {
        lemma_table_after_keeps_other_names(m, b, (k - 1) as nat, name);
        assert(entry_name(b, k - 1) != name);
    }
}

/// After a handshake whose `i`-th table entry carries the NUL-padded ASCII
/// name `name` (with no NUL in it, and no later entry for the same name), the
/// table maps `name` to that entry's id.
pub proof fn lemma_handshake_records_ascii_name(
    m: Map<Seq<char>, u16>,
    b: Seq<u8>,
    k: nat,
    i: int,
    name: Seq<char>,
)
    requires
        0 <= i < k,
        is_ascii_chars(name),
        forall|c: int| 0 <= c < name.len() ==> #[trigger] name[c] != '\0',
        encode_utf8(name).len() <= 64,
        entry_name_field(b, entry_offset(i)) == padded_name(encode_utf8(name)),
        forall|j: int| i < j < k ==> #[trigger] entry_name(b, j) != name,
    ensures
        table_after(m, b, k).contains_key(name),
        table_after(m, b, k)[name] == entry_index(b, entry_offset(i)),
{
    let n = encode_utf8(name);
    lemma_ascii_name_field_roundtrip(name, (64 - n.len()) as nat);
    assert(padded_name(n) == n + Seq::new((64 - n.len()) as nat, |c: int| 0u8));
    assert(entry_name(b, i) == name);
    lemma_table_after_last_entry_wins(m, b, k, i);
}

/// Wire layout of the client-create reply header. Its fields sit in the
/// order they are declared, each right after the ones before it
/// (`_vl_msg_id` 2 bytes at 0, `client_index` 4 at 2, `context` 4 at 6,
/// `response` 4 at 10, `index` 4 at 14, `count` 2 at 18), most significant
/// byte first; `response` is read as two's complement.
pub proof fn lemma_reply_hdr_layout(b: Seq<u8>)
    requires
        b.len() >= REPLY_HDR_LEN,
    ensures
        ({
            let h = MsgSockClntCreateReplyHdr::spec_decode(b);
            let r = b[10] * 0x100_0000 + b[11] * 0x1_0000 + b[12] * 0x100 + b[13];
            &&& h._vl_msg_id as int == b[0] * 0x100 + b[1]
            &&& h.client_index as int == b[2] * 0x100_0000 + b[3] * 0x1_0000 + b[4] * 0x100 + b[5]
            &&& h.context as int == b[6] * 0x100_0000 + b[7] * 0x1_0000 + b[8] * 0x100 + b[9]
            &&& h.response as int == (if r < 0x8000_0000 {
                r
            } else {
                r - 0x1_0000_0000
            })
            &&& h.index as int == b[14] * 0x100_0000 + b[15] * 0x1_0000 + b[16] * 0x100 + b[17]
            &&& h.count as int == b[18] * 0x100 + b[19]
        }),
{
    lemma_u16_at(b, 0);
    lemma_u32_at(b, 2);
    lemma_u32_at(b, 6);
    lemma_u32_at(b, 10);
    lemma_u32_at(b, 14);
    lemma_u16_at(b, 18);
}

/// An encoded client-create reply header holds each field at its place in
/// the layout of `lemma_reply_hdr_layout`, and is 20 bytes long.
pub proof fn lemma_reply_hdr_encode_layout(h: MsgSockClntCreateReplyHdr)
    ensures
        ({
            let e = h.spec_encode();
            let r = e[10] * 0x100_0000 + e[11] * 0x1_0000 + e[12] * 0x100 + e[13];
            &&& e.len() == REPLY_HDR_LEN
            &&& h._vl_msg_id as int == e[0] * 0x100 + e[1]
            &&& h.client_index as int == e[2] * 0x100_0000 + e[3] * 0x1_0000 + e[4] * 0x100 + e[5]
            &&& h.context as int == e[6] * 0x100_0000 + e[7] * 0x1_0000 + e[8] * 0x100 + e[9]
            &&& h.response as int == (if r < 0x8000_0000 {
                r
            } else {
                r - 0x1_0000_0000
            })
            &&& h.index as int == e[14] * 0x100_0000 + e[15] * 0x1_0000 + e[16] * 0x100 + e[17]
            &&& h.count as int == e[18] * 0x100 + e[19]
        }),
{
    lemma_reply_hdr_decode_encode(h);
    lemma_reply_hdr_layout(h.spec_encode());
}

/// Wire layout of the client-create reply's message table: the `i`-th entry
/// follows the 20-byte header and `i` entries of 66 bytes; it holds the
/// message id (2 bytes, most significant first), then the 64-byte name field.
pub proof fn lemma_reply_entry_layout(b: Seq<u8>, i: int)
    requires
        0 <= i,
        20 + 66 * i + 66 <= b.len(),
    ensures
        entry_index(b, entry_offset(i)) as int == b[20 + 66 * i] * 0x100 + b[21 + 66 * i],
        entry_name_field(b, entry_offset(i)) == b.subrange(22 + 66 * i, 86 + 66 * i),
{
    lemma_u16_at(b, 20 + 66 * i);
}

/// Wire layout of the client-create request: the message id (2 bytes at 0),
/// the context (4 bytes at 2), most significant byte first, then the
/// 64-byte name field at 6.
pub proof fn lemma_create_layout(b: Seq<u8>)
    requires
        b.len() == 70,
    ensures
        ({
            let (name, id, context) = MsgSockClntCreate::spec_decode(b);
            &&& id as int == b[0] * 0x100 + b[1]
            &&& context as int == b[2] * 0x100_0000 + b[3] * 0x1_0000 + b[4] * 0x100 + b[5]
            &&& name == b.subrange(6, 70)
        }),
{
    lemma_u16_at(b, 0);
    lemma_u32_at(b, 2);
}

} // verus!
