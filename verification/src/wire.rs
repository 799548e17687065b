//! Big-endian, fixed-width integer fields: the encoding that every message
//! exchanged with VPP over the API socket is made of.
use vstd::prelude::*;
use vstd::arithmetic::div_mod::lemma_fundamental_div_mod;
use vstd::arithmetic::div_mod::lemma_fundamental_div_mod_converse;

verus! {

/// `256` to the power `n`.
pub open spec fn pow256(n: nat) -> nat
    decreases n,
{
    if n == 0 {
        1
    } else {
        256 * pow256((n - 1) as nat)
    }
}

/// The low `n` bytes of `v`, most significant first.
pub open spec fn be_bytes(v: nat, n: nat) -> Seq<u8>
    decreases n,
{
    if n == 0 {
        Seq::empty()
    } else {
        be_bytes(v / 256, (n - 1) as nat).push((v % 256) as u8)
    }
}

/// The number that a big-endian byte string stands for.
pub open spec fn be_value(s: Seq<u8>) -> nat
    decreases s.len(),
{
    if s.len() == 0 {
        0
    } else {
        be_value(s.drop_last()) * 256 + s.last() as nat
    }
}

/// A 32-bit field read as a two's complement signed number.
pub open spec fn signed32(v: nat) -> int {
    if v < 0x8000_0000 {
        v as int
    } else {
        v - 0x1_0000_0000
    }
}

pub proof fn lemma_pow256_values()
    ensures
        pow256(2) == 0x1_0000,
        pow256(4) == 0x1_0000_0000,
        pow256(7) == 0x100_0000_0000_0000,
        pow256(8) == 0x1_0000_0000_0000_0000,
{
    reveal_with_fuel(pow256, 9);
}

pub proof fn lemma_pow256_monotone(a: nat, b: nat)
    requires
        a <= b,
    ensures
        1 <= pow256(a) <= pow256(b),
    decreases b,
{
    if a < b {
        lemma_pow256_monotone(a, (b - 1) as nat);
    } else {
        lemma_pow256_positive(b);
    }
}

pub proof fn lemma_pow256_positive(n: nat)
    ensures
        pow256(n) >= 1,
    decreases n,
{
    if n > 0 {
        lemma_pow256_positive((n - 1) as nat);
    }
}

/// The image of a number always has the width asked for.
pub proof fn lemma_be_bytes_len(v: nat, n: nat)
    ensures
        be_bytes(v, n).len() == n,
    decreases n,
{
    if n > 0 {
        lemma_be_bytes_len(v / 256, (n - 1) as nat);
    }
}

/// A byte string of length `k` stands for a number below `256^k`.
pub proof fn lemma_be_value_bound(s: Seq<u8>)
    ensures
        be_value(s) < pow256(s.len()),
    decreases s.len(),
{
    if s.len() > 0 {
        let d = s.drop_last();
        lemma_be_value_bound(d);
        let x = be_value(d);
        let p = pow256(d.len());
        let b = s.last() as int;
        assert(x * 256 + b < 256 * p) by (nonlinear_arith)
            requires
                x < p,
                0 <= b < 256,
        ;
    }
}

/// Reading back the image of `v` gives `v` modulo `256^n`.
pub proof fn lemma_be_value_of_bytes(v: nat, n: nat)
    ensures
        be_value(be_bytes(v, n)) == v % pow256(n),
    decreases n,
{
    if n == 0 {
        assert(v % 1 == 0) by (nonlinear_arith);
    } else {
        let q = v / 256;
        let r = v % 256;
        let m = pow256((n - 1) as nat);
        lemma_pow256_monotone(0, (n - 1) as nat);
        lemma_be_value_of_bytes(q, (n - 1) as nat);
        let prefix = be_bytes(q, (n - 1) as nat);
        let s = be_bytes(v, n);
        assert(s.drop_last() =~= prefix);
        lemma_fundamental_div_mod(v as int, 256);
        lemma_fundamental_div_mod(q as int, m as int);
        let a = q / m;
        let b = q % m;
        assert(0 <= b < m);
        assert(0 <= r < 256);
        assert(v == a * (256 * m) + (256 * b + r)) by (nonlinear_arith)
            requires
                v == 256 * q + r,
                q == m * a + b,
        ;
        assert(0 <= 256 * b + r < 256 * m) by (nonlinear_arith)
            requires
                0 <= b < m,
                0 <= r < 256,
        ;
        lemma_fundamental_div_mod_converse(v as int, (256 * m) as int, a as int, (256 * b + r) as int);
        assert((r as u8) as int == r);
    }
}

/// A number below `256^n` is read back unchanged from its `n`-byte image.
pub proof fn lemma_be_roundtrip(v: nat, n: nat)
    requires
        v < pow256(n),
    ensures
        be_value(be_bytes(v, n)) == v,
        be_bytes(v, n).len() == n,
{
    lemma_be_value_of_bytes(v, n);
    lemma_be_bytes_len(v, n);
    lemma_fundamental_div_mod_converse(v as int, pow256(n) as int, 0, v as int);
}

/// A byte string is the image of the number it stands for.
pub proof fn lemma_be_bytes_of_value(s: Seq<u8>)
    ensures
        be_bytes(be_value(s), s.len()) == s,
    decreases s.len(),
{
    if s.len() > 0 {
        let d = s.drop_last();
        lemma_be_bytes_of_value(d);
        let x = be_value(d);
        let b = s.last() as int;
        lemma_fundamental_div_mod_converse((x * 256 + b) as int, 256, x as int, b);
        assert(be_bytes(be_value(s), s.len()) =~= d.push(s.last()));
        assert(d.push(s.last()) =~= s);
    }
}

/// Appends the `n`-byte big-endian image of `v` to `out`.
pub fn push_be(out: &mut Vec<u8>, v: u64, n: usize)
    ensures
        final(out)@ == old(out)@ + be_bytes(v as nat, n as nat),
    decreases n,
{
    if n > 0 {
        push_be(out, v / 256, n - 1);
        out.push((v % 256) as u8);
        assert(final(out)@ =~= old(out)@ + be_bytes(v as nat, n as nat));
    } else {
        assert(final(out)@ =~= old(out)@ + be_bytes(v as nat, n as nat));
    }
}

/// Reads the `n`-byte big-endian number that starts at `start`.
pub fn get_be(s: &[u8], start: usize, n: usize) -> (v: u64)
    requires
        n <= 8,
        start + n <= s.len(),
    ensures
        v as nat == be_value(s@.subrange(start as int, start + n)),
    decreases n,
{
    if n == 0 {
        assert(s@.subrange(start as int, start as int).len() == 0);
        0
    } else {
        let hi = get_be(s, start, n - 1);
        let ghost whole = s@.subrange(start as int, start + n);
        let ghost part = s@.subrange(start as int, start + n - 1);
        proof {
            assert(whole.drop_last() =~= part);
            lemma_be_value_bound(part);
            lemma_pow256_monotone((n - 1) as nat, 7);
            lemma_pow256_values();
            assert(hi * 256 + 255 < 0x1_0000_0000_0000_0000) by (nonlinear_arith)
                requires
                    hi < 0x100_0000_0000_0000,
            ;
        }
        hi * 256 + s[start + (n - 1)] as u64
    }
}

/// Appends the 2-byte image of `v`.
pub fn put_u16(out: &mut Vec<u8>, v: u16)
    ensures
        final(out)@ == old(out)@ + be_bytes(v as nat, 2),
{
    push_be(out, v as u64, 2);
}

/// Appends the 4-byte image of `v`.
pub fn put_u32(out: &mut Vec<u8>, v: u32)
    ensures
        final(out)@ == old(out)@ + be_bytes(v as nat, 4),
{
    push_be(out, v as u64, 4);
}

/// Appends the 8-byte image of `v`.
pub fn put_u64(out: &mut Vec<u8>, v: u64)
    ensures
        final(out)@ == old(out)@ + be_bytes(v as nat, 8),
{
    push_be(out, v, 8);
}

/// Reads the 2-byte field that starts at `start`.
pub fn get_u16(s: &[u8], start: usize) -> (v: u16)
    requires
        start + 2 <= s.len(),
    ensures
        v as nat == be_value(s@.subrange(start as int, start + 2)),
{
    let x = get_be(s, start, 2);
    proof {
        lemma_be_value_bound(s@.subrange(start as int, start + 2));
        lemma_pow256_values();
    }
    x as u16
}

/// Reads the 4-byte field that starts at `start`.
pub fn get_u32(s: &[u8], start: usize) -> (v: u32)
    requires
        start + 4 <= s.len(),
    ensures
        v as nat == be_value(s@.subrange(start as int, start + 4)),
{
    let x = get_be(s, start, 4);
    proof {
        lemma_be_value_bound(s@.subrange(start as int, start + 4));
        lemma_pow256_values();
    }
    x as u32
}

/// Reads the 8-byte field that starts at `start`.
pub fn get_u64(s: &[u8], start: usize) -> (v: u64)
    requires
        start + 8 <= s.len(),
    ensures
        v as nat == be_value(s@.subrange(start as int, start + 8)),
{
    get_be(s, start, 8)
}

/// Reads the 4-byte field that starts at `start` as a signed number.
pub fn get_i32(s: &[u8], start: usize) -> (v: i32)
    requires
        start + 4 <= s.len(),
    ensures
        v as int == signed32(be_value(s@.subrange(start as int, start + 4))),
{
    let x = get_u32(s, start);
    if x < 0x8000_0000 {
        x as i32
    } else {
        ((x - 0x8000_0000) as i32) - 0x7fff_ffff - 1
    }
}

/// Most significant byte first: two bytes stand for the first times 256
/// plus the second.
pub proof fn lemma_be_value_2(s: Seq<u8>)
    requires
        s.len() == 2,
    ensures
        be_value(s) == s[0] * 0x100 + s[1],
{
    let d = s.drop_last();
    assert(d.drop_last().len() == 0);
    assert(be_value(d.drop_last()) == 0);
    assert(d.last() == s[0]);
    assert(be_value(d) == be_value(d.drop_last()) * 256 + d.last());
    assert(be_value(s) == be_value(d) * 256 + s.last());
}

/// Most significant byte first: four bytes stand for
/// `s[0]·2^24 + s[1]·2^16 + s[2]·2^8 + s[3]`.
pub proof fn lemma_be_value_4(s: Seq<u8>)
    requires
        s.len() == 4,
    ensures
        be_value(s) == s[0] * 0x100_0000 + s[1] * 0x1_0000 + s[2] * 0x100 + s[3],
{
    let d3 = s.drop_last();
    let d2 = d3.drop_last();
    lemma_be_value_2(d2);
    assert(d2[0] == s[0] && d2[1] == s[1]);
    assert(d3.last() == s[2]);
    assert(be_value(d3) == be_value(d2) * 256 + d3.last());
    assert(be_value(s) == be_value(d3) * 256 + s.last());
}

/// Most significant byte first: eight bytes stand for
/// `Σ s[i]·256^(7-i)`.
pub proof fn lemma_be_value_8(s: Seq<u8>)
    requires
        s.len() == 8,
    ensures
        be_value(s) == s[0] * 0x100_0000_0000_0000 + s[1] * 0x1_0000_0000_0000 + s[2]
            * 0x100_0000_0000 + s[3] * 0x1_0000_0000 + s[4] * 0x100_0000 + s[5] * 0x1_0000
            + s[6] * 0x100 + s[7],
{
    let d7 = s.drop_last();
    let d6 = d7.drop_last();
    let d5 = d6.drop_last();
    let d4 = d5.drop_last();
    lemma_be_value_4(d4);
    assert(d4[0] == s[0] && d4[1] == s[1] && d4[2] == s[2] && d4[3] == s[3]);
    assert(d5.last() == s[4]);
    assert(d6.last() == s[5]);
    assert(d7.last() == s[6]);
    assert(be_value(d5) == be_value(d4) * 256 + d5.last());
    assert(be_value(d6) == be_value(d5) * 256 + d6.last());
    assert(be_value(d7) == be_value(d6) * 256 + d7.last());
    assert(be_value(s) == be_value(d7) * 256 + s.last());
}

/// The 2-byte field at offset `o`, read most significant byte first.
pub proof fn lemma_u16_at(b: Seq<u8>, o: int)
    requires
        0 <= o,
        o + 2 <= b.len(),
    ensures
        be_value(b.subrange(o, o + 2)) == b[o] * 0x100 + b[o + 1],
        be_value(b.subrange(o, o + 2)) < 0x1_0000,
{
    let f = b.subrange(o, o + 2);
    lemma_be_value_2(f);
    assert(f[0] == b[o] && f[1] == b[o + 1]);
}

/// The 4-byte field at offset `o`, read most significant byte first.
pub proof fn lemma_u32_at(b: Seq<u8>, o: int)
    requires
        0 <= o,
        o + 4 <= b.len(),
    ensures
        be_value(b.subrange(o, o + 4)) == b[o] * 0x100_0000 + b[o + 1] * 0x1_0000 + b[o + 2]
            * 0x100 + b[o + 3],
        be_value(b.subrange(o, o + 4)) < 0x1_0000_0000,
{
    let f = b.subrange(o, o + 4);
    lemma_be_value_4(f);
    assert(f[0] == b[o] && f[1] == b[o + 1] && f[2] == b[o + 2] && f[3] == b[o + 3]);
}

/// The 8-byte field at offset `o`, read most significant byte first.
pub proof fn lemma_u64_at(b: Seq<u8>, o: int)
    requires
        0 <= o,
        o + 8 <= b.len(),
    ensures
        be_value(b.subrange(o, o + 8)) == b[o] * 0x100_0000_0000_0000 + b[o + 1]
            * 0x1_0000_0000_0000 + b[o + 2] * 0x100_0000_0000 + b[o + 3] * 0x1_0000_0000 + b[o
            + 4] * 0x100_0000 + b[o + 5] * 0x1_0000 + b[o + 6] * 0x100 + b[o + 7],
        be_value(b.subrange(o, o + 8)) < 0x1_0000_0000_0000_0000,
{
    let f = b.subrange(o, o + 8);
    lemma_be_value_8(f);
    lemma_be_value_bound(f);
    lemma_pow256_values();
    assert(f[0] == b[o] && f[1] == b[o + 1] && f[2] == b[o + 2] && f[3] == b[o + 3]);
    assert(f[4] == b[o + 4] && f[5] == b[o + 5] && f[6] == b[o + 6] && f[7] == b[o + 7]);
}

/// A signed 32-bit field is the two's complement reading of its bits: the
/// number in `[-2^31, 2^31)` that is congruent to them modulo `2^32`.
pub proof fn lemma_signed32(v: nat)
    requires
        v < 0x1_0000_0000,
    ensures
        -0x8000_0000 <= signed32(v) < 0x8000_0000,
        signed32(v) == v || signed32(v) == v - 0x1_0000_0000,
{
}

/// Appends `src[from..to]` to `out`.
pub fn push_bytes(out: &mut Vec<u8>, src: &[u8], from: usize, to: usize)
    requires
        from <= to <= src.len(),
    ensures
        final(out)@ == old(out)@ + src@.subrange(from as int, to as int),
{
    let mut i = from;
    while i < to
        invariant
            from <= i <= to <= src.len(),
            out@ == old(out)@ + src@.subrange(from as int, i as int),
        decreases to - i,
    {
        out.push(src[i]);
        i = i + 1;
        assert(out@ =~= old(out)@ + src@.subrange(from as int, i as int));
    }
}

} // verus!
