//! Content hashing of file bytes.

use vstd::prelude::*;

verus! {

/// The hexadecimal digest the hash function assigns to a byte string; a
/// pure function of the bytes alone.
pub uninterp spec fn blake3_hex_of(data: Seq<u8>) -> Seq<char>;

/// Relies on blake3::hash and blake3::Hash::to_hex: the digest depends on
/// the input bytes alone and is written as 64 hexadecimal digits.
#[verifier::external_body]
fn blake3_hex(data: &[u8]) -> (r: String)
    ensures
        r@ == blake3_hex_of(data@),
        r@.len() == 64,
{
    blake3::hash(data).to_hex().as_str().to_owned()
}

/// The content digest of a byte string, as manifests record it.
pub fn hash_bytes(data: &Vec<u8>) -> (r: String)
    ensures
        r@ == blake3_hex_of(data@),
        r@.len() == 64,
{
    blake3_hex(data.as_slice())
}

/// Whether a recorded hash matches the digest of the given bytes.
pub fn hash_matches(recorded: &String, data: &Vec<u8>) -> (r: bool)
    ensures
        r == (recorded@ == blake3_hex_of(data@)),
{
    let h = hash_bytes(data);
    recorded.eq(&h)
}

} // verus!
