use vstd::prelude::*;

verus! {

/// The SHA-256 digest of `b`, written as lower-case hexadecimal.
pub uninterp spec fn sha256_hex(b: Seq<u8>) -> Seq<char>;

/// Relies on `sha256::digest`: the hex encoding of the 32-byte SHA-256 digest
/// of the bytes, so 64 characters.
#[verifier::external_body]
fn digest_hex(b: &Vec<u8>) -> (r: String)
    ensures
        r@ == sha256_hex(b@),
        r@.len() == 64,
{
    sha256::digest(b)
}

/// The checksum recorded for a file whose content is `content`.
pub fn checksum_of(content: &Vec<u8>) -> (r: String)
    ensures
        r@ == sha256_hex(content@),
{
    digest_hex(content)
}

} // verus!
