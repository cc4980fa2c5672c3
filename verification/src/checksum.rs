//! Content checksums: MD5 digests rendered as lower-case hex strings, and
//! the freshly drawn checksums used for generated tree states.

use vstd::prelude::*;
use md5::Digest;

verus! {

/// The lower-case hex digit for a value below sixteen.
pub open spec fn hex_digit(n: u8) -> char {
    if n == 0 {
        '0'
    } else if n == 1 {
        '1'
    } else if n == 2 {
        '2'
    } else if n == 3 {
        '3'
    } else if n == 4 {
        '4'
    } else if n == 5 {
        '5'
    } else if n == 6 {
        '6'
    } else if n == 7 {
        '7'
    } else if n == 8 {
        '8'
    } else if n == 9 {
        '9'
    } else if n == 10 {
        'a'
    } else if n == 11 {
        'b'
    } else if n == 12 {
        'c'
    } else if n == 13 {
        'd'
    } else if n == 14 {
        'e'
    } else {
        'f'
    }
}

/// Lower-case hex rendering of a byte sequence, two digits per byte.
pub open spec fn hex_of(bytes: Seq<u8>) -> Seq<char>
    decreases bytes.len(),
{
    if bytes.len() == 0 {
        Seq::empty()
    } else {
        seq![hex_digit((bytes[0] / 16) as u8), hex_digit((bytes[0] % 16) as u8)]
            + hex_of(bytes.skip(1))
    }
}

pub proof fn lemma_hex_of_len(bytes: Seq<u8>)
    ensures
        hex_of(bytes).len() == 2 * bytes.len(),
    decreases bytes.len(),
{
    if bytes.len() > 0 {
        lemma_hex_of_len(bytes.skip(1));
    }
}

/// The MD5 digest of a byte sequence; sixteen bytes depending on the input
/// bytes alone.
pub uninterp spec fn md5_of(bytes: Seq<u8>) -> Seq<u8>;

/// Relies on base16ct::lower::encode_string: two lower-case hex digits for
/// each input byte, low nibble after high nibble.
#[verifier::external_body]
fn hex_lower(bytes: &[u8]) -> (r: String)
    requires
        2 * bytes@.len() <= usize::MAX,
    ensures
        r@ == hex_of(bytes@),
{
    base16ct::lower::encode_string(bytes)
}

/// Relies on md5::Md5::digest (the md-5 crate): the MD5 digest of the input,
/// sixteen bytes depending on the input alone.
#[verifier::external_body]
fn md5_digest(bytes: &[u8]) -> (r: [u8; 16])
    ensures
        r@ == md5_of(bytes@),
{
    md5::Md5::digest(bytes).into()
}

/// Relies on rand::random: sixteen bytes from the thread-local generator;
/// nothing is promised of their values.
#[verifier::external_body]
fn random_bytes16() -> (r: [u8; 16]) {
    rand::random()
}

/// A freshly drawn checksum in the shape of an MD5 hex string.
pub fn random_md5() -> (r: String)
    ensures
        r@.len() == 32,
{
    let bytes: [u8; 16] = random_bytes16();
    let s = hex_lower(bytes.as_slice());
    proof {
        lemma_hex_of_len(bytes@);
    }
    s
}

/// The content checksum of a byte payload: its MD5 digest in lower-case hex.
pub fn md5_hex(bytes: &[u8]) -> (r: String)
    ensures
        r@ == hex_of(md5_of(bytes@)),
        r@.len() == 2 * md5_of(bytes@).len(),
{
    let d = md5_digest(bytes);
    let s = hex_lower(d.as_slice());
    proof {
        lemma_hex_of_len(d@);
    }
    s
}

} // verus!
