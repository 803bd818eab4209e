//! Content fingerprints: SHA-256 digests rendered as uppercase hexadecimal.

use vstd::prelude::*;
use sha2::Digest;

verus! {

/// The SHA-256 digest of a byte sequence, as the sha2 crate computes it.
/// The digest is a function of the input bytes alone, identical across
/// machines and runs.
pub uninterp spec fn sha256_digest(bytes: Seq<u8>) -> Seq<u8>;

/// The uppercase hexadecimal digit for a value below sixteen.
pub open spec fn hex_digit_upper(v: int) -> char {
    seq!['0', '1', '2', '3', '4', '5', '6', '7', '8', '9', 'A', 'B', 'C', 'D', 'E', 'F'][v]
}

/// Uppercase hexadecimal rendering of a byte sequence, two digits per byte,
/// most significant nibble first.
pub open spec fn spec_hex_upper(bytes: Seq<u8>) -> Seq<char>
    decreases bytes.len(),
{
    if bytes.len() == 0 {
        Seq::<char>::empty()
    } else {
        seq![
            hex_digit_upper(bytes[0] as int / 16),
            hex_digit_upper(bytes[0] as int % 16),
        ] + spec_hex_upper(bytes.drop_first())
    }
}

/// The hexadecimal SHA-256 fingerprint of a byte sequence: the form every
/// stored content hash takes.
pub open spec fn spec_content_hash(bytes: Seq<u8>) -> Seq<char> {
    spec_hex_upper(sha256_digest(bytes))
}

pub proof fn lemma_hex_upper_len(bytes: Seq<u8>)
    ensures
        spec_hex_upper(bytes).len() == 2 * bytes.len(),
    decreases bytes.len(),
{
    if bytes.len() > 0 {
        lemma_hex_upper_len(bytes.drop_first());
    }
}

/// Relies on sha2's `Sha256::digest`: the 32-byte SHA-256 digest of the
/// full input, a function of the input bytes alone.
#[verifier::external_body]
fn sha256_digest_of(bytes: &[u8]) -> (r: Vec<u8>)
    ensures
        r@ == sha256_digest(bytes@),
        r@.len() == 32,
{
    sha2::Sha256::digest(bytes).to_vec()
}

/// Relies on data-encoding's `HEXUPPER.encode`: two uppercase hexadecimal
/// digits per input byte, most significant nibble first.
#[verifier::external_body]
fn hex_upper_of(bytes: &[u8]) -> (r: String)
    ensures
        r@ == spec_hex_upper(bytes@),
{
    data_encoding::HEXUPPER.encode(bytes)
}

/// Compute the hexadecimal SHA-256 fingerprint of a file's content bytes.
pub fn content_hash_hex(bytes: &[u8]) -> (r: String)
    ensures
        r@ == spec_content_hash(bytes@),
        r@.len() == 64,
{
    let digest = sha256_digest_of(bytes);
    let hex = hex_upper_of(digest.as_slice());
    proof {
        lemma_hex_upper_len(sha256_digest(bytes@));
    }
    hex
}

} // verus!
