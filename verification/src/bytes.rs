use vstd::prelude::*;
use vstd::slice::{slice_subrange, slice_to_vec};
use vstd::utf8::{decode_utf8, encode_utf8, valid_utf8};
use crate::error::Error;

verus! {

/// The byte at position `i` of a number's eight big-endian bytes.
pub open spec fn be_byte(n: u64, i: int) -> u8 {
    ((n >> ((8 * (7 - i)) as u64)) & 0xff) as u8
}

/// The eight bytes of a number, most significant first.
pub open spec fn be_bytes(n: u64) -> Seq<u8> {
    Seq::new(8, |i: int| be_byte(n, i))
}

/// The number that eight bytes spell, most significant first.
pub open spec fn be_value(bytes: Seq<u8>) -> u64 {
    (bytes[0] as u64) << 56 | (bytes[1] as u64) << 48 | (bytes[2] as u64) << 40 | (bytes[3] as u64)
        << 32 | (bytes[4] as u64) << 24 | (bytes[5] as u64) << 16 | (bytes[6] as u64) << 8 | (
    bytes[7] as u64)
}

/// How a bytes entity is laid out in its blob: the length of the alt-key's
/// UTF-8 form as eight big-endian bytes, then the alt-key, then the payload.
pub open spec fn framed(alt_key: Seq<char>, payload: Seq<u8>) -> Seq<u8> {
    be_bytes(encode_utf8(alt_key).len() as u64) + encode_utf8(alt_key) + payload
}

/// The alt-key and the payload that a blob frames: the blob holds the eight
/// bytes of a length, at least that many bytes after them, and those are the
/// UTF-8 form of a text.
pub open spec fn unframed(blob: Seq<u8>) -> Option<(Seq<char>, Seq<u8>)> {
    if blob.len() < 8 {
        None
    } else {
        let n = be_value(blob.subrange(0, 8)) as int;
        if n > blob.len() - 8 {
            None
        } else if !valid_utf8(blob.subrange(8, 8 + n)) {
            None
        } else {
            Some((decode_utf8(blob.subrange(8, 8 + n)), blob.subrange(8 + n, blob.len() as int)))
        }
    }
}

/// Reads a text from its UTF-8 form with `String::from_utf8`, which accepts
/// exactly the valid UTF-8 sequences and refuses every other.
#[verifier::external_body]
fn text_of(bytes: Vec<u8>) -> (text: Option<String>)
    ensures
        match text {
            Some(s) => valid_utf8(bytes@) && s@ == decode_utf8(bytes@),
            None => !valid_utf8(bytes@),
        },
{
    match String::from_utf8(bytes) {
        Ok(s) => Some(s),
        Err(_) => None,
    }
}

/// Eight big-endian bytes spell the number they were made from.
pub proof fn lemma_be_round_trip(n: u64)
    ensures
        be_value(be_bytes(n)) == n,
{
    let b = be_bytes(n);
    assert(b[0] == be_byte(n, 0) && b[1] == be_byte(n, 1) && b[2] == be_byte(n, 2) && b[3] == be_byte(n, 3));
    assert(b[4] == be_byte(n, 4) && b[5] == be_byte(n, 5) && b[6] == be_byte(n, 6) && b[7] == be_byte(n, 7));
    assert((((n >> 56u64) & 0xff) as u8 as u64) << 56 | (((n >> 48u64) & 0xff) as u8 as u64) << 48 | (((n
        >> 40u64) & 0xff) as u8 as u64) << 40 | (((n >> 32u64) & 0xff) as u8 as u64) << 32 | (((n
        >> 24u64) & 0xff) as u8 as u64) << 24 | (((n >> 16u64) & 0xff) as u8 as u64) << 16 | (((n
        >> 8u64) & 0xff) as u8 as u64) << 8 | (((n >> 0u64) & 0xff) as u8 as u64) == n) by (bit_vector);
}

/// A framed blob gives back the alt-key and the payload it was made from.
pub proof fn lemma_frame_round_trip(alt_key: Seq<char>, payload: Seq<u8>)
    requires
        encode_utf8(alt_key).len() <= u64::MAX,
    ensures
        unframed(framed(alt_key, payload)) == Some((alt_key, payload)),
{
    let key_bytes = encode_utf8(alt_key);
    let n = key_bytes.len() as u64;
    let blob = framed(alt_key, payload);
    lemma_be_round_trip(n);
    assert(blob.subrange(0, 8) =~= be_bytes(n));
    assert(blob.subrange(8, 8 + n) =~= key_bytes);
    assert(blob.subrange(8 + n, blob.len() as int) =~= payload);
    vstd::utf8::encode_utf8_valid_utf8(alt_key);
    vstd::utf8::encode_utf8_decode_utf8(alt_key);
}

/// The eight big-endian bytes of a number, appended to `out`.
fn push_be(out: &mut Vec<u8>, n: u64)
    ensures
        final(out)@ == old(out)@ + be_bytes(n),
{
    let ghost before = out@;
    let mut i: usize = 0;
    while i < 8
        invariant
            i <= 8,
            out@.len() == before.len() + i,
            forall|k: int| 0 <= k < before.len() ==> out@[k] == before[k],
            forall|k: int| 0 <= k < i ==> out@[before.len() + k] == be_byte(n, k),
        decreases 8 - i,
    {
        let shift: u64 = 8 * (7 - i as u64);
        let byte: u64 = (n >> shift) & 0xff;
        assert(byte <= 0xff) by (bit_vector)
            requires
                byte == (n >> shift) & 0xff,
        ;
        out.push(byte as u8);
        i += 1;
    }
    assert(out@ =~= before + be_bytes(n));
}

/// The number that the first eight bytes of `bytes` spell.
fn read_be(bytes: &[u8]) -> (n: u64)
    requires
        bytes@.len() >= 8,
    ensures
        n == be_value(bytes@.subrange(0, 8)),
{
    let b0 = bytes[0] as u64;
    let b1 = bytes[1] as u64;
    let b2 = bytes[2] as u64;
    let b3 = bytes[3] as u64;
    let b4 = bytes[4] as u64;
    let b5 = bytes[5] as u64;
    let b6 = bytes[6] as u64;
    let b7 = bytes[7] as u64;
    b0 << 56 | b1 << 48 | b2 << 40 | b3 << 32 | b4 << 24 | b5 << 16 | b6 << 8 | b7
}

/// Lays out a bytes entity for its blob.
pub fn frame(alt_key: &str, payload: &[u8]) -> (blob: Vec<u8>)
    ensures
        blob@ == framed(alt_key@, payload@),
{
    let key_bytes = alt_key.as_bytes();
    let mut blob: Vec<u8> = Vec::new();
    push_be(&mut blob, key_bytes.len() as u64);
    blob.extend_from_slice(key_bytes);
    blob.extend_from_slice(payload);
    assert(blob@ =~= framed(alt_key@, payload@));
    blob
}

/// Takes a blob apart into the alt-key and the payload it frames; `Decode`
/// when the blob frames nothing.
pub fn unframe(blob: &[u8]) -> (res: Result<(String, Vec<u8>), Error>)
    ensures
        match res {
            Ok((alt_key, payload)) => unframed(blob@) == Some((alt_key@, payload@)),
            Err(e) => e == Error::Decode && unframed(blob@) is None,
        },
{
    if blob.len() < 8 {
        return Err(Error::Decode);
    }
    let n = read_be(blob);
    if n > (blob.len() - 8) as u64 {
        return Err(Error::Decode);
    }
    let end: usize = 8 + n as usize;
    let key_bytes = slice_to_vec(slice_subrange(blob, 8, end));
    let payload = slice_to_vec(slice_subrange(blob, end, blob.len()));
    match text_of(key_bytes) {
        Some(alt_key) => Ok((alt_key, payload)),
        None => Err(Error::Decode),
    }
}

} // verus!
