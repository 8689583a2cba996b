//! Conversions between strings, characters and bytes.

use vstd::prelude::*;
use vstd::utf8::{
    char_is_scalar, char_u32_cast, decode_utf8, encode_scalar, encode_utf8, has_width_1_encoding,
    has_width_2_encoding, has_width_3_encoding, valid_utf8,
};

verus! {

/// The characters of `s`.
pub fn str_chars(s: &str) -> (v: Vec<char>)
    ensures
        v@ == s@,
{
    let mut v: Vec<char> = Vec::new();
    for c in it: s.chars()
        invariant
            v@ == it.seq().take(it.index() as int),
    {
        v.push(c);
    }
    v
}


/// The string made of the characters `cs`.
///
/// Trusted: calls std's `String::from_iter` over `&char` items, which appends
/// each character in order.
#[verifier::external_body]
pub(crate) fn string_from_chars(cs: &[char]) -> (s: String)
    ensures
        s@ == cs@,
{
    String::from_iter(cs)
}

/// What `String::from_utf8_lossy` makes of a byte sequence: its UTF-8 decoding,
/// with each invalid sequence replaced by U+FFFD.
pub uninterp spec fn utf8_lossy(bytes: Seq<u8>) -> Seq<char>;

/// The characters of `bytes`: their UTF-8 decoding where they are valid UTF-8,
/// and otherwise what `String::from_utf8_lossy` makes of them.
pub open spec fn decode_text(bytes: Seq<u8>) -> Seq<char> {
    if valid_utf8(bytes) {
        decode_utf8(bytes)
    } else {
        utf8_lossy(bytes)
    }
}

/// `bytes` decoded as UTF-8, each invalid sequence replaced by U+FFFD.
///
/// Trusted: calls std's `String::from_utf8_lossy` and takes the text it gives
/// as an owned string. The contract names the result, and states what std's
/// documentation gives: valid UTF-8 is decoded as it is.
#[verifier::external_body]
fn lossy_string(bytes: &[u8]) -> (s: String)
    ensures
        !valid_utf8(bytes@) ==> s@ == utf8_lossy(bytes@),
        valid_utf8(bytes@) ==> s@ == decode_utf8(bytes@),
{
    String::from_utf8_lossy(bytes).into_owned()
}

/// The characters of `bytes` decoded as UTF-8, invalid sequences replaced.
pub(crate) fn decode_utf8_lossy(bytes: &[u8]) -> (v: Vec<char>)
    ensures
        v@ == decode_text(bytes@),
{
    let s = lossy_string(bytes);
    str_chars(s.as_str())
}

/// The UTF-8 encoding of `s`.
pub fn string_bytes(s: &String) -> (b: Vec<u8>)
    ensures
        b@ == encode_utf8(s@),
{
    vstd::slice::slice_to_vec(s.as_str().as_bytes())
}


/// Encoding a concatenation concatenates the encodings.
pub proof fn lemma_encode_concat(a: Seq<char>, b: Seq<char>)
    ensures
        encode_utf8(a + b) == encode_utf8(a) + encode_utf8(b),
    decreases a.len(),
{
    if a.len() == 0 {
        assert(a + b =~= b);
        assert(encode_utf8(a) =~= Seq::<u8>::empty());
        assert(Seq::<u8>::empty() + encode_utf8(b) =~= encode_utf8(b));
    } else {
        assert((a + b).drop_first() =~= a.drop_first() + b);
        assert((a + b)[0] == a[0]);
        lemma_encode_concat(a.drop_first(), b);
        assert(encode_scalar(a[0] as u32) + (encode_utf8(a.drop_first()) + encode_utf8(b))
            =~= encode_scalar(a[0] as u32) + encode_utf8(a.drop_first()) + encode_utf8(b));
    }
}

/// An ASCII character encodes as its own code; any other character encodes
/// as bytes that are all at least 0x80.
pub proof fn lemma_encode_char(c: char)
    ensures
        encode_scalar(c as u32).len() >= 1,
        (c as u32) < 0x80 ==> encode_scalar(c as u32) == seq![(c as u32) as u8],
        (c as u32) >= 0x80 ==> forall|i: int|
            0 <= i < encode_scalar(c as u32).len() ==> #[trigger] encode_scalar(c as u32)[i] >= 0x80,
{
    char_is_scalar(c);
    let v = c as u32;
    if v < 0x80 {
        assert(has_width_1_encoding(v));
        assert((v & 0x7F) as u8 == v as u8) by (bit_vector)
            requires
                v < 0x80,
        ;
    } else {
        assert(!has_width_1_encoding(v));
        assert(0x80u8 | ((v & 0x3F) as u8) >= 0x80) by (bit_vector);
        assert(0x80u8 | (((v >> 6) & 0x3F) as u8) >= 0x80) by (bit_vector);
        assert(0x80u8 | (((v >> 12) & 0x3F) as u8) >= 0x80) by (bit_vector);
        assert(0xC0u8 | (((v >> 6) & 0x1F) as u8) >= 0x80) by (bit_vector);
        assert(0xE0u8 | (((v >> 12) & 0x0F) as u8) >= 0x80) by (bit_vector);
        assert(0xF0u8 | (((v >> 18) & 0x7) as u8) >= 0x80) by (bit_vector);
    }
}

/// The encoding of text without the ASCII character `c` has no byte `c`.
pub proof fn lemma_encode_absent(s: Seq<char>, c: char)
    requires
        (c as u32) < 0x80,
        forall|i: int| 0 <= i < s.len() ==> s[i] != c,
    ensures
        forall|i: int| 0 <= i < encode_utf8(s).len() ==> encode_utf8(s)[i] != (c as u32) as u8,
    decreases s.len(),
{
    if s.len() > 0 {
        let head = encode_scalar(s[0] as u32);
        let tail = s.drop_first();
        lemma_encode_absent(tail, c);
        lemma_encode_char(s[0]);
        assert forall|i: int| 0 <= i < head.len() implies head[i] != (c as u32) as u8 by {
            if (s[0] as u32) < 0x80 {
                char_u32_cast(s[0], s[0] as u32);
                char_u32_cast(c, c as u32);
                assert((s[0] as u32) != (c as u32));
                assert(((s[0] as u32) as u8) != ((c as u32) as u8));
            }
        }
        let e = encode_utf8(s);
        assert(e =~= head + encode_utf8(tail));
        assert forall|i: int| 0 <= i < e.len() implies e[i] != (c as u32) as u8 by {
            if i >= head.len() {
                assert(e[i] == encode_utf8(tail)[i - head.len()]);
            } else {
                assert(e[i] == head[i]);
            }
        }
    }
}

/// The first byte of the encoding of non-empty text.
pub proof fn lemma_encode_first(s: Seq<char>)
    requires
        s.len() > 0,
    ensures
        encode_utf8(s).len() > 0,
        (s[0] as u32) < 0x80 ==> encode_utf8(s)[0] == (s[0] as u32) as u8,
        (s[0] as u32) >= 0x80 ==> encode_utf8(s)[0] >= 0x80,
{
    lemma_encode_char(s[0]);
    let head = encode_scalar(s[0] as u32);
    assert(encode_utf8(s) =~= head + encode_utf8(s.drop_first()));
    assert(encode_utf8(s)[0] == head[0]);
}

} // verus!
