//! Hashes and encodings of bytes.

use base64::Engine;
use sha2::Digest;
use vstd::prelude::*;
use vstd::utf8::*;

verus! {

/// The SHA-256 hasher of the `sha2` crate.
#[verifier::external_type_specification]
#[verifier::external_body]
pub struct ExSha256(sha2::Sha256);

/// The bytes that a hasher has been fed.
pub uninterp spec fn hasher_fed(hasher: sha2::Sha256) -> Seq<u8>;

/// The SHA-256 digest of bytes.
pub uninterp spec fn sha256_digest(bytes: Seq<u8>) -> Seq<u8>;

/// The standard, padded base64 encoding of bytes.
pub uninterp spec fn base64_standard(bytes: Seq<u8>) -> Seq<char>;

/// How many bytes a hasher can be fed, so that it can count their bits.
pub const HASH_LIMIT: u64 = 0x2000_0000_0000_0000;

/// Makes a hasher with `sha2::Sha256::new`. Trusted: it has been fed nothing.
#[verifier::external_body]
pub(crate) fn new_hasher() -> (r: sha2::Sha256)
    ensures
        hasher_fed(r) == Seq::<u8>::empty(),
{
    sha2::Sha256::new()
}

/// Feeds a hasher with `sha2::Sha256::update`. Trusted: the bytes come behind those that it was
/// fed before.
#[verifier::external_body]
pub(crate) fn feed_hasher(hasher: sha2::Sha256, bytes: &[u8]) -> (r: sha2::Sha256)
    requires
        hasher_fed(hasher).len() + bytes@.len() < HASH_LIMIT,
    ensures
        hasher_fed(r) == hasher_fed(hasher) + bytes@,
{
    let mut hasher = hasher;
    hasher.update(bytes);
    hasher
}

/// Ends a hash with `sha2::Sha256::finalize`. Trusted: the digest has 32 bytes and is a function
/// of the bytes that the hasher was fed, however they were cut.
#[verifier::external_body]
pub(crate) fn finish_hasher(hasher: sha2::Sha256) -> (r: Vec<u8>)
    requires
        hasher_fed(hasher).len() < HASH_LIMIT,
    ensures
        r@ == sha256_digest(hasher_fed(hasher)),
        r@.len() == 32,
{
    hasher.finalize().to_vec()
}

/// Encodes bytes with `base64::engine::general_purpose::STANDARD.encode`. Trusted: the text is a
/// function of the bytes alone.
#[verifier::external_body]
pub(crate) fn encode_base64(bytes: &[u8]) -> (r: String)
    requires
        bytes@.len() <= usize::MAX / 4,
    ensures
        r@ == base64_standard(bytes@),
{
    base64::engine::general_purpose::STANDARD.encode(bytes)
}

/// Reads bytes as text with `std::str::from_utf8`. Trusted: it succeeds on exactly the bytes that
/// are UTF-8, with the characters that they encode.
#[verifier::external_body]
pub(crate) fn read_utf8(bytes: &[u8]) -> (r: Option<String>)
    ensures
        match r {
            Some(text) => valid_utf8(bytes@) && text@ == decode_utf8(bytes@),
            None => !valid_utf8(bytes@),
        },
{
    std::str::from_utf8(bytes).ok().map(|text| text.to_owned())
}

} // verus!
