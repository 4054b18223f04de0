use vstd::prelude::*;

use tiny_keccak::Hasher;

verus! {

/// The SHA-256 digest of a byte string. The digest is a function of the
/// input alone; nothing further is assumed about its value.
pub uninterp spec fn sha256_of(data: Seq<u8>) -> Seq<u8>;

/// The RIPEMD-160 digest of a byte string.
pub uninterp spec fn ripemd160_of(data: Seq<u8>) -> Seq<u8>;

/// The SHA3-256 digest of a byte string.
pub uninterp spec fn sha3_256_of(data: Seq<u8>) -> Seq<u8>;

/// The base58 rendering of a byte string.
pub uninterp spec fn base58_of(data: Seq<u8>) -> Seq<char>;

/// Relies on bitcoin_hashes' sha256::Hash::hash: the 32-byte SHA-256 digest
/// of the input.
#[verifier::external_body]
pub fn sha256(data: &Vec<u8>) -> (r: Vec<u8>)
    ensures
        r@ == sha256_of(data@),
        r@.len() == 32,
{
    let h = <bitcoin::hashes::sha256::Hash as bitcoin::hashes::Hash>::hash(data.as_slice());
    <bitcoin::hashes::sha256::Hash as bitcoin::hashes::Hash>::to_byte_array(h).to_vec()
}

/// Relies on bitcoin_hashes' ripemd160::Hash::hash: the 20-byte RIPEMD-160
/// digest of the input.
#[verifier::external_body]
pub fn ripemd160(data: &Vec<u8>) -> (r: Vec<u8>)
    ensures
        r@ == ripemd160_of(data@),
        r@.len() == 20,
{
    let h = <bitcoin::hashes::ripemd160::Hash as bitcoin::hashes::Hash>::hash(data.as_slice());
    <bitcoin::hashes::ripemd160::Hash as bitcoin::hashes::Hash>::to_byte_array(h).to_vec()
}

/// Relies on tiny_keccak's Sha3::v256: the 32-byte SHA3-256 digest of the
/// input (finalize fills the whole 32-byte output buffer).
#[verifier::external_body]
pub fn sha3_256(data: &Vec<u8>) -> (r: Vec<u8>)
    ensures
        r@ == sha3_256_of(data@),
        r@.len() == 32,
{
    let mut hash = [0u8; 32];
    let mut hasher = tiny_keccak::Sha3::v256();
    hasher.update(data.as_slice());
    hasher.finalize(&mut hash);
    hash.to_vec()
}

/// Relies on bs58::encode: the base58 rendering of the input bytes, using
/// the Bitcoin alphabet (the default).
#[verifier::external_body]
pub fn base58_encode(data: &Vec<u8>) -> (r: String)
    ensures
        r@ == base58_of(data@),
{
    bs58::encode(data.as_slice()).into_string()
}

/// Relies on bs58::decode: the rendering is a bijection between byte
/// strings and strings over the base58 alphabet (positional base
/// conversion, a leading alphabet-zero digit per leading zero byte), so a
/// string that decodes successfully is the rendering of the decoded bytes
/// and of no others, and a string that fails to decode contains a
/// character outside the alphabet and so renders no byte string.
#[verifier::external_body]
pub fn base58_decode(s: &str) -> (r: Option<Vec<u8>>)
    ensures
        match r {
            Option::Some(v) => s@ == base58_of(v@) && forall|w: Seq<u8>|
                base58_of(w) == s@ ==> w == v@,
            Option::None => forall|w: Seq<u8>| base58_of(w) != s@,
        },
{
    match bs58::decode(s).into_vec() {
        Ok(v) => Some(v),
        Err(_) => None,
    }
}

} // verus!
