//! Hashing used to key the health caches: SHA-256 (from `sha2`) rendered as
//! lowercase hex (from `hex`).

use vstd::prelude::*;
use vstd::utf8::encode_utf8;

verus! {

/// The SHA-256 digest of `data`.
pub uninterp spec fn sha256_of(data: Seq<u8>) -> Seq<u8>;

/// The lowercase hex digit for a nibble.
pub open spec fn hex_digit(n: u8) -> char {
    if n < 10 {
        (48 + n) as char
    } else {
        (87 + n) as char
    }
}

/// Lowercase hex of `b`: two digits per byte, high nibble first.
pub open spec fn hex_spec(b: Seq<u8>) -> Seq<char>
    decreases b.len(),
{
    if b.len() == 0 {
        Seq::empty()
    } else {
        hex_spec(b.drop_last()) + seq![hex_digit(b.last() / 16), hex_digit(b.last() % 16)]
    }
}

pub proof fn lemma_hex_len(b: Seq<u8>)
    ensures
        hex_spec(b).len() == 2 * b.len(),
    decreases b.len(),
{
    if b.len() > 0 {
        lemma_hex_len(b.drop_last());
    }
}

/// `sha2::Sha256::digest`: the SHA-256 of `data`, which is 32 bytes long.
#[verifier::external_body]
fn sha256(data: &[u8]) -> (r: Vec<u8>)
    ensures
        r@ == sha256_of(data@),
        r@.len() == 32,
{
    <sha2::Sha256 as sha2::Digest>::digest(data).to_vec()
}

/// `hex::encode`: each byte as two lowercase hex digits, high nibble first.
#[verifier::external_body]
fn hex_encode(data: &[u8]) -> (r: String)
    ensures
        r@ == hex_spec(data@),
{
    hex::encode(data)
}

/// Lowercase hex of the SHA-256 of `data`.
pub open spec fn sha256_hex_spec(data: Seq<u8>) -> Seq<char> {
    hex_spec(sha256_of(data))
}

/// Lowercase hex of the SHA-256 of `data` (64 characters).
pub fn sha256_hex(data: &[u8]) -> (r: String)
    ensures
        r@ == sha256_hex_spec(data@),
        r@.len() == 64,
{
    let d = sha256(data);
    proof {
        lemma_hex_len(d@);
    }
    hex_encode(d.as_slice())
}

/// The fields joined for hashing: each field's UTF-8 bytes followed by `sep`.
pub open spec fn joined_fields(fields: Seq<Seq<char>>, sep: u8) -> Seq<u8>
    decreases fields.len(),
{
    if fields.len() == 0 {
        Seq::empty()
    } else {
        joined_fields(fields.drop_last(), sep) + encode_utf8(fields.last()) + seq![sep]
    }
}

/// Appends the UTF-8 bytes of `s` and then `sep` to `out`.
pub fn push_field(out: &mut Vec<u8>, s: &str, sep: u8)
    ensures
        final(out)@ == old(out)@ + encode_utf8(s@) + seq![sep],
{
    let bytes = s.as_bytes();
    let ghost start = out@;
    let mut i: usize = 0;
    while i < bytes.len()
        invariant
            i <= bytes@.len(),
            bytes@ == encode_utf8(s@),
            out@ == start + bytes@.subrange(0, i as int),
        decreases bytes@.len() - i,
    {
        out.push(bytes[i]);
        i = i + 1;
    }
    assert(bytes@.subrange(0, bytes@.len() as int) =~= bytes@);
    out.push(sep);
}

} // verus!
