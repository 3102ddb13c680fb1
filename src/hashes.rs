use vstd::prelude::*;
use sha2::Digest;

verus! {

/// The SHA-256 digest of a byte string.
pub uninterp spec fn sha256_of(data: Seq<u8>) -> Seq<u8>;

/// The Keccak-256 digest of a byte string.
pub uninterp spec fn keccak256_of(data: Seq<u8>) -> Seq<u8>;

/// Relies on sha2's `Sha256::digest`: the 32-byte SHA-256 digest of `data`,
/// which depends on `data` alone.
#[verifier::external_body]
fn sha256_digest(data: &[u8]) -> (r: Vec<u8>)
    ensures
        r@ == sha256_of(data@),
        r@.len() == 32,
{
    sha2::Sha256::digest(data).to_vec()
}

/// Relies on sha3's `Keccak256::digest`: the 32-byte Keccak-256 digest of
/// `data`, which depends on `data` alone.
#[verifier::external_body]
fn keccak256_digest(data: &[u8]) -> (r: Vec<u8>)
    ensures
        r@ == keccak256_of(data@),
        r@.len() == 32,
{
    sha3::Keccak256::digest(data).to_vec()
}

/// The number of 64-bit words that hold `len` bytes: `len / 8` rounded up.
pub fn message_word_count(len: usize) -> (r: usize)
    ensures
        r == (len as int + 7) / 8,
{
    if len % 8 == 0 {
        len / 8
    } else {
        len / 8 + 1
    }
}

/// What a hash circuit over a message is populated with: the number of
/// message words, the message length in bytes as a word, and the expected
/// digest.
pub struct HashWitness {
    pub message_words: usize,
    pub len_bytes: u64,
    pub digest: Vec<u8>,
}

/// The values that a SHA-256 circuit over `message` is populated with.
pub fn sha256_witness(message: &[u8]) -> (r: HashWitness)
    ensures
        r.message_words == (message.len() + 7) / 8,
        r.len_bytes == message.len(),
        r.digest@ == sha256_of(message@),
        r.digest@.len() == 32,
{
    HashWitness {
        message_words: message_word_count(message.len()),
        len_bytes: message.len() as u64,
        digest: sha256_digest(message),
    }
}

/// The values that a Keccak-256 circuit over `message` is populated with.
pub fn keccak256_witness(message: &[u8]) -> (r: HashWitness)
    ensures
        r.message_words == (message.len() + 7) / 8,
        r.len_bytes == message.len(),
        r.digest@ == keccak256_of(message@),
        r.digest@.len() == 32,
{
    HashWitness {
        message_words: message_word_count(message.len()),
        len_bytes: message.len() as u64,
        digest: keccak256_digest(message),
    }
}

} // verus!
