//! Digests and the byte strings they are taken of.
use crate::text::concat;
use vstd::prelude::*;
use vstd::utf8::encode_utf8;

verus! {

/// What BLAKE3 gives for a byte string, in hexadecimal.
pub uninterp spec fn blake3_hex(bytes: Seq<u8>) -> Seq<char>;

/// `c` is a lower-case hexadecimal digit.
pub open spec fn is_hex_digit(c: char) -> bool {
    ('0' <= c && c <= '9') || ('a' <= c && c <= 'f')
}

/// `blake3::hash` and `Hash::to_hex`: the digest of the bytes, as sixty-four
/// lower-case hexadecimal digits.
#[verifier::external_body]
fn blake3_of(bytes: &[u8]) -> (r: String)
    ensures
        r@ == blake3_hex(bytes@),
        r@.len() == 64,
        forall|i: int| 0 <= i < r@.len() ==> is_hex_digit(#[trigger] r@[i]),
{
    blake3::hash(bytes).to_hex().to_string()
}

/// The hexadecimal digit of a value below sixteen.
pub open spec fn hex_digit(d: int) -> char {
    seq!['0', '1', '2', '3', '4', '5', '6', '7', '8', '9', 'a', 'b', 'c', 'd', 'e', 'f'][d]
}

/// The bytes in hexadecimal, two digits for each.
pub open spec fn hex_text(bytes: Seq<u8>) -> Seq<char>
    decreases bytes.len(),
{
    if bytes.len() == 0 {
        Seq::empty()
    } else {
        hex_text(bytes.drop_last()).push(hex_digit(bytes.last() as int / 16)).push(
            hex_digit(bytes.last() as int % 16),
        )
    }
}

/// `hex::encode`: two lower-case digits for each byte, the high one first.
#[verifier::external_body]
pub(crate) fn hex_encode(bytes: &[u8]) -> (r: String)
    ensures
        r@ == hex_text(bytes@),
{
    hex::encode(bytes)
}

/// A digest as the state records it.
pub open spec fn tagged_digest(bytes: Seq<u8>) -> Seq<char> {
    "blake3:"@ + blake3_hex(bytes)
}

/// The digest of a byte string as the state records it.
pub fn hash_bytes(content: &[u8]) -> (r: String)
    ensures
        r@ == tagged_digest(content@),
{
    let hex = blake3_of(content);
    concat("blake3:", hex.as_str())
}

/// The bare digest of a byte string.
pub fn digest_hex(content: &[u8]) -> (r: String)
    ensures
        r@ == blake3_hex(content@),
        r@.len() == 64,
{
    blake3_of(content)
}

/// The content of a file, where one that cannot be read counts as empty.
pub open spec fn content_or_empty(content: Option<Vec<u8>>) -> Seq<u8> {
    match content {
        Some(c) => c@,
        None => Seq::empty(),
    }
}

/// The digest of a file; one that cannot be read counts as empty.
pub fn hash_file(content: &Option<Vec<u8>>) -> (r: String)
    ensures
        r@ == tagged_digest(content_or_empty(*content)),
{
    match content {
        Some(c) => hash_bytes(c.as_slice()),
        None => {
            let empty: Vec<u8> = Vec::new();
            hash_bytes(empty.as_slice())
        },
    }
}

/// The digest of a file that can be read.
pub fn hash_file_if_exists(content: &Option<Vec<u8>>) -> (r: Option<String>)
    ensures
        match r {
            Some(h) => content is Some && h@ == tagged_digest(content->0@),
            None => content is None,
        },
{
    match content {
        Some(c) => Some(hash_bytes(c.as_slice())),
        None => None,
    }
}

/// Add bytes to a message.
pub fn push_bytes(out: &mut Vec<u8>, bytes: &[u8])
    ensures
        final(out)@ == old(out)@ + bytes@,
{
    let ghost was = out@;
    let mut i: usize = 0;
    proof {
        assert(was + bytes@.take(0) =~= was);
    }
    while i < bytes.len()
        invariant
            i <= bytes@.len(),
            out@ == was + bytes@.take(i as int),
        decreases bytes.len() - i,
    {
        out.push(bytes[i]);
        i += 1;
        proof {
            assert(was + bytes@.take(i as int) =~= (was + bytes@.take(i - 1)).push(bytes@[i - 1]));
        }
    }
    proof {
        assert(bytes@.take(i as int) =~= bytes@);
    }
}

/// Add a text to a message.
pub fn push_text(out: &mut Vec<u8>, text: &str)
    ensures
        final(out)@ == old(out)@ + encode_utf8(text@),
{
    push_bytes(out, text.as_bytes());
}

/// Add one byte to a message.
pub fn push_byte(out: &mut Vec<u8>, byte: u8)
    ensures
        final(out)@ == old(out)@ + seq![byte],
{
    let ghost was = out@;
    out.push(byte);
    proof {
        assert(out@ =~= was + seq![byte]);
    }
}

} // verus!
