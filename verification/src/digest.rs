//! SHA-256 digests and their hexadecimal form.

use sha2::{Digest, Sha256};
use vstd::prelude::*;

verus! {

/// The SHA-256 digest of a byte string.
pub uninterp spec fn sha256_digest(data: Seq<u8>) -> Seq<u8>;

/// Calls `Sha256::digest` of the `sha2` crate.
///
/// Trusted: the bytes returned are the SHA-256 digest of `data`, which is a
/// function of `data` alone, and there are 32 of them (the hasher's output
/// size).
#[verifier::external_body]
fn sha256(data: &[u8]) -> (digest: Vec<u8>)
    ensures
        digest@ == sha256_digest(data@),
        digest@.len() == 32,
{
    Sha256::digest(data).to_vec()
}

/// The lower-case hexadecimal digit for a value below 16.
pub open spec fn hex_digit(nibble: int) -> char {
    if nibble < 10 {
        (('0' as int) + nibble) as char
    } else {
        (('a' as int) + nibble - 10) as char
    }
}

/// The lower-case hexadecimal form of `bytes`: two digits per byte, the high
/// half first.
pub open spec fn lower_hex(bytes: Seq<u8>) -> Seq<char> {
    Seq::new(
        2 * bytes.len(),
        |i: int|
            if i % 2 == 0 {
                hex_digit(bytes[i / 2] as int / 16)
            } else {
                hex_digit(bytes[i / 2] as int % 16)
            },
    )
}

/// The hexadecimal SHA-256 digest of the UTF-8 encoding of `text`.
pub open spec fn sha256_hex(text: Seq<char>) -> Seq<char> {
    lower_hex(sha256_digest(vstd::utf8::encode_utf8(text)))
}

fn hex_digit_of(nibble: u8) -> (c: char)
    requires
        nibble < 16,
    ensures
        c == hex_digit(nibble as int),
{
    if nibble < 10 {
        (48u8 + nibble) as char
    } else {
        (97u8 + (nibble - 10)) as char
    }
}

/// The SHA-256 digest of the UTF-8 encoding of `text`, as 64 lower-case
/// hexadecimal digits.
pub fn sha256_hex_digits(text: &str) -> (hex: Vec<char>)
    ensures
        hex@ == sha256_hex(text@),
        hex@.len() == 64,
{
    let digest = sha256(text.as_bytes());
    let mut hex: Vec<char> = Vec::new();
    let mut i: usize = 0;
    while i < digest.len()
        invariant
            i <= digest.len(),
            hex@.len() == 2 * i,
            forall|k: int| 0 <= k < hex@.len() ==> hex@[k] == lower_hex(digest@)[k],
        decreases digest.len() - i,
    {
        let byte: u8 = digest[i];
        hex.push(hex_digit_of(byte / 16));
        hex.push(hex_digit_of(byte % 16));
        i += 1;
    }
    assert(hex@ =~= lower_hex(digest@));
    hex
}

} // verus!
