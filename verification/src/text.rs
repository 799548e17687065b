//! Turning the fixed-size, NUL-padded name fields of the wire format into
//! strings.
use vstd::prelude::*;
use vstd::string::StrSliceExecFns;
use vstd::utf8::{
    decode_utf8, encode_utf8, encode_utf8_decode_utf8, encode_utf8_valid_utf8, is_ascii_chars,
    is_ascii_chars_encode_utf8, is_ascii_chars_nat_bound, valid_utf8,
};

verus! {

/// What `String::from_utf8_lossy` makes of a byte string: the text it
/// holds, with each invalid sequence replaced by U+FFFD.
pub uninterp spec fn utf8_lossy(bytes: Seq<u8>) -> Seq<char>;

/// `s` without the NUL characters it ends with.
pub open spec fn trim_trailing_nul(s: Seq<char>) -> Seq<char>
    decreases s.len(),
{
    if s.len() > 0 && s.last() == '\0' {
        trim_trailing_nul(s.drop_last())
    } else {
        s
    }
}

/// Calls `String::from_utf8_lossy` (std) and takes the owned string.
/// Claimed: the result depends on the bytes alone (named `utf8_lossy`), and
/// for valid UTF-8 it is the text the bytes encode, as the std
/// documentation says. What it makes of invalid sequences is left unsaid.
#[verifier::external_body]
fn string_from_utf8_lossy(bytes: &[u8]) -> (s: String)
    ensures
        s@ == utf8_lossy(bytes@),
        valid_utf8(bytes@) ==> s@ == decode_utf8(bytes@),
{
    String::from_utf8_lossy(bytes).into_owned()
}

/// `s` without the NUL characters it ends with.
pub fn trim_end_nul(s: &str) -> (r: &str)
    ensures
        r@ == trim_trailing_nul(s@),
{
    let mut n = s.unicode_len();
    proof {
        assert(s@.subrange(0, n as int) =~= s@);
    }
    while n > 0
        invariant
            n <= s@.len(),
            trim_trailing_nul(s@.subrange(0, n as int)) == trim_trailing_nul(s@),
        ensures
            n <= s@.len(),
            trim_trailing_nul(s@.subrange(0, n as int)) == trim_trailing_nul(s@),
            n == 0 || s@[n - 1] != '\0',
        decreases n,
    {
        let c = s.get_char(n - 1);
        if c != '\0' {
            break;
        }
        proof {
            assert(s@.subrange(0, n as int).drop_last() =~= s@.subrange(0, n - 1));
        }
        n = n - 1;
    }
    let r = s.substring_char(0, n);
    proof {
        let p = s@.subrange(0, n as int);
        if n > 0 {
            assert(p.last() == s@[n - 1]);
        }
        assert(trim_trailing_nul(p) == p);
    }
    r
}

/// The text that a name field holds: the characters it encodes when it is
/// valid UTF-8, else what `String::from_utf8_lossy` makes of it.
pub open spec fn field_text(bytes: Seq<u8>) -> Seq<char> {
    if valid_utf8(bytes) {
        decode_utf8(bytes)
    } else {
        utf8_lossy(bytes)
    }
}

/// The name that a NUL-padded name field holds.
pub open spec fn field_name(bytes: Seq<u8>) -> Seq<char> {
    trim_trailing_nul(field_text(bytes))
}

/// The characters that ASCII bytes stand for, one per byte.
pub open spec fn ascii_chars(bytes: Seq<u8>) -> Seq<char> {
    Seq::new(bytes.len(), |i: int| bytes[i] as char)
}

/// Bytes below 0x80 are valid UTF-8, and stand for one character each.
pub proof fn lemma_ascii_bytes_decode(bytes: Seq<u8>)
    requires
        forall|i: int| 0 <= i < bytes.len() ==> #[trigger] bytes[i] < 0x80,
    ensures
        valid_utf8(bytes),
        decode_utf8(bytes) == ascii_chars(bytes),
{
    let c = ascii_chars(bytes);
    assert(is_ascii_chars(c));
    is_ascii_chars_encode_utf8(c);
    assert(encode_utf8(c) =~= bytes);
    encode_utf8_valid_utf8(c);
    encode_utf8_decode_utf8(c);
}

/// Decodes a NUL-padded name field into the name it holds.
pub fn name_from_field(bytes: &[u8]) -> (s: String)
    ensures
        s@ == field_name(bytes@),
        (forall|i: int| 0 <= i < bytes@.len() ==> #[trigger] bytes@[i] < 0x80) ==> s@
            == trim_trailing_nul(ascii_chars(bytes@)),
{
    proof {
        if forall|i: int| 0 <= i < bytes@.len() ==> #[trigger] bytes@[i] < 0x80 {
            lemma_ascii_bytes_decode(bytes@);
        }
    }
    let full = string_from_utf8_lossy(bytes);
    let trimmed = trim_end_nul(full.as_str());
    trimmed.to_owned()
}

/// `k` NUL characters.
pub open spec fn nuls(k: nat) -> Seq<char> {
    Seq::new(k, |i: int| '\0')
}

/// NUL characters appended to a text are trimmed away again.
pub proof fn lemma_trim_appended_nuls(a: Seq<char>, k: nat)
    ensures
        trim_trailing_nul(a + nuls(k)) == trim_trailing_nul(a),
    decreases k,
{
    if k == 0 {
        assert(a + nuls(0) =~= a);
    } else {
        let x = a + nuls(k);
        assert(x.drop_last() =~= a + nuls((k - 1) as nat));
        lemma_trim_appended_nuls(a, (k - 1) as nat);
    }
}

/// An ASCII name without NUL characters, padded with NUL bytes, is read
/// back from the field as that name.
pub proof fn lemma_ascii_name_field_roundtrip(name: Seq<char>, pad: nat)
    requires
        is_ascii_chars(name),
        forall|i: int| 0 <= i < name.len() ==> #[trigger] name[i] != '\0',
    ensures
        field_name(encode_utf8(name) + Seq::new(pad, |i: int| 0u8)) == name,
{
    let b = encode_utf8(name);
    is_ascii_chars_encode_utf8(name);
    is_ascii_chars_nat_bound(name);
    let p = b + Seq::new(pad, |i: int| 0u8);
    assert forall|i: int| 0 <= i < p.len() implies #[trigger] p[i] < 0x80 by {
        if i < b.len() {
            assert(b[i] == name[i] as u8);
            assert((name[i] as nat) < 128);
        }
    }
    lemma_ascii_bytes_decode(p);
    assert(ascii_chars(p) =~= name + nuls(pad)) by {
        assert forall|i: int| 0 <= i < name.len() implies ascii_chars(p)[i] == name[i] by {
            assert(b[i] == name[i] as u8);
            assert((name[i] as nat) < 128);
        }
    }
    lemma_trim_appended_nuls(name, pad);
    if name.len() > 0 {
        assert(name.last() != '\0');
    }
}

} // verus!
