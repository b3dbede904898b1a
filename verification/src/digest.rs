//! Content digests: SHA-256 through OpenSSL, and lowercase hex encoding.

use vstd::prelude::*;
use crate::paths::{is_checksum, spec_is_hex_lower};

verus! {

/// The error type of OpenSSL calls; opaque to this library.
#[verifier::external_type_specification]
#[verifier::external_body]
pub struct ExErrorStack(openssl::error::ErrorStack);

/// The SHA-256 digest of a byte sequence. The digest is a fixed function of
/// the input bytes alone; its definition lives in OpenSSL.
pub uninterp spec fn sha256_of(data: Seq<u8>) -> Seq<u8>;

/// Relies on openssl::hash::hash with MessageDigest::sha256: the digest
/// depends on the input bytes alone and is 32 bytes long.
#[verifier::external_body]
pub(crate) fn sha256(data: &[u8]) -> (r: Result<Vec<u8>, openssl::error::ErrorStack>)
    ensures
        r matches Ok(d) ==> d@ == sha256_of(data@) && d@.len() == 32,
{
    openssl::hash::hash(openssl::hash::MessageDigest::sha256(), data).map(|d| d.to_vec())
}

/// The lowercase hex digit with value `v`.
pub open spec fn spec_hex_digit(v: int) -> char {
    if v == 0 { '0' }
    else if v == 1 { '1' }
    else if v == 2 { '2' }
    else if v == 3 { '3' }
    else if v == 4 { '4' }
    else if v == 5 { '5' }
    else if v == 6 { '6' }
    else if v == 7 { '7' }
    else if v == 8 { '8' }
    else if v == 9 { '9' }
    else if v == 10 { 'a' }
    else if v == 11 { 'b' }
    else if v == 12 { 'c' }
    else if v == 13 { 'd' }
    else if v == 14 { 'e' }
    else { 'f' }
}

/// Lowercase hex encoding: two digits per byte, high nibble first, in input
/// order.
pub open spec fn hex_of(b: Seq<u8>) -> Seq<char>
    decreases b.len(),
{
    if b.len() == 0 {
        Seq::empty()
    } else {
        seq![spec_hex_digit(b[0] as int / 16), spec_hex_digit(b[0] as int % 16)] + hex_of(b.skip(1))
    }
}

/// Relies on hex::encode: two lowercase hex digits per input byte, high
/// nibble first, in input order.
#[verifier::external_body]
pub(crate) fn hex_encode(data: &[u8]) -> (r: String)
    ensures
        r@ == hex_of(data@),
{
    hex::encode(data)
}

/// Hex encoding doubles the length and yields lowercase hex digits only.
pub proof fn lemma_hex_of_wf(b: Seq<u8>)
    ensures
        hex_of(b).len() == 2 * b.len(),
        forall|i: int| 0 <= i < hex_of(b).len() ==> spec_is_hex_lower(#[trigger] hex_of(b)[i]),
    decreases b.len(),
{
    if b.len() > 0 {
        lemma_hex_of_wf(b.skip(1));
        assert(0 <= b[0] / 16 < 16) by (nonlinear_arith);
        assert(0 <= b[0] % 16 < 16) by (nonlinear_arith);
    }
}

/// The hex encoding of a 32-byte digest is a well-formed checksum.
pub proof fn lemma_hex_of_digest_is_checksum(b: Seq<u8>)
    requires
        b.len() == 32,
    ensures
        is_checksum(hex_of(b)),
{
    lemma_hex_of_wf(b);
}

} // verus!
