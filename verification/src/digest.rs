//! Content digests of binaries, rendered as lowercase hexadecimal text.

use sha1::Digest;
use vstd::prelude::*;

verus! {

/// The SHA-1 digest of a byte sequence: twenty bytes that depend on the
/// input bytes alone.
pub uninterp spec fn sha1_of(bytes: Seq<u8>) -> Seq<u8>;

/// Relies on the sha1 crate's Digest::digest for Sha1: the digest is twenty
/// bytes long and is a function of the input bytes alone.
#[verifier::external_body]
fn sha1_bytes(data: &[u8]) -> (r: Vec<u8>)
    ensures
        r@ == sha1_of(data@),
        r@.len() == 20,
{
    sha1::Sha1::digest(data).to_vec()
}

/// The character of one hexadecimal digit, lowercase.
pub open spec fn spec_hex_digit(d: nat) -> char {
    if d == 0 {
        '0'
    } else if d == 1 {
        '1'
    } else if d == 2 {
        '2'
    } else if d == 3 {
        '3'
    } else if d == 4 {
        '4'
    } else if d == 5 {
        '5'
    } else if d == 6 {
        '6'
    } else if d == 7 {
        '7'
    } else if d == 8 {
        '8'
    } else if d == 9 {
        '9'
    } else if d == 10 {
        'a'
    } else if d == 11 {
        'b'
    } else if d == 12 {
        'c'
    } else if d == 13 {
        'd'
    } else if d == 14 {
        'e'
    } else {
        'f'
    }
}

/// Lowercase hexadecimal text of a byte sequence: two digits per byte,
/// high nibble first.
pub open spec fn spec_hex_lower(bs: Seq<u8>) -> Seq<char>
    decreases bs.len(),
{
    if bs.len() == 0 {
        Seq::<char>::empty()
    } else {
        seq![
            spec_hex_digit((bs[0] / 16) as nat),
            spec_hex_digit((bs[0] % 16) as nat),
        ] + spec_hex_lower(bs.drop_first())
    }
}

/// Relies on hex::encode: lowercase hexadecimal, two digits per byte, high
/// nibble first.
#[verifier::external_body]
fn hex_lower(data: &[u8]) -> (r: String)
    ensures
        r@ == spec_hex_lower(data@),
{
    hex::encode(data)
}

/// Law: the hexadecimal text of a byte sequence is twice as long as the
/// sequence.
pub proof fn lemma_hex_len(bs: Seq<u8>)
    ensures
        spec_hex_lower(bs).len() == 2 * bs.len(),
    decreases bs.len(),
{
    if bs.len() > 0 {
        lemma_hex_len(bs.drop_first());
    }
}

/// The lowercase hexadecimal rendering of a byte sequence's SHA-1 digest.
pub open spec fn spec_digest_hex(bytes: Seq<u8>) -> Seq<char> {
    spec_hex_lower(sha1_of(bytes))
}

/// Computes the hexadecimal SHA-1 digest of a binary's bytes: forty
/// lowercase hexadecimal characters that depend on the bytes alone.
pub fn digest_hex(data: &[u8]) -> (r: String)
    ensures
        r@ == spec_digest_hex(data@),
        r@.len() == 40,
{
    let d = sha1_bytes(data);
    let r = hex_lower(d.as_slice());
    proof {
        lemma_hex_len(sha1_of(data@));
    }
    r
}

/// Law: the digest is a pure function of a binary's content; two binaries
/// with the same bytes carry the same digest in every run.
pub proof fn lemma_digest_pure(a: Seq<u8>, b: Seq<u8>)
    requires
        a == b,
    ensures
        spec_digest_hex(a) == spec_digest_hex(b),
{
}

} // verus!
