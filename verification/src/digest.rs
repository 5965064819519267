//! Content hashes of repository databases.

use vstd::prelude::*;

verus! {

/// The SHA-512 digest of `data`.
pub uninterp spec fn sha512(data: Seq<u8>) -> Seq<u8>;

/// The number of bytes from which on the digest is refused: 2^61.
pub const DIGEST_LIMIT: u64 = 0x2000_0000_0000_0000;

/// Calls `ring::digest::digest` with `ring::digest::SHA512` and copies the
/// digest out. The digest depends on the bytes alone and has 64 bytes. ring
/// refuses an input of 2^61 bytes or more, whose length in bits it cannot
/// write down.
#[verifier::external_body]
fn sha512_of(data: &Vec<u8>) -> (r: Vec<u8>)
    requires
        data@.len() < DIGEST_LIMIT,
    ensures
        r@ == sha512(data@),
        r@.len() == 64,
{
    ring::digest::digest(&ring::digest::SHA512, data.as_slice()).as_ref().to_vec()
}

/// The lower-case hexadecimal digit of a value below 16.
pub open spec fn hex_digit(v: int) -> char {
    if v == 0 {
        '0'
    } else if v == 1 {
        '1'
    } else if v == 2 {
        '2'
    } else if v == 3 {
        '3'
    } else if v == 4 {
        '4'
    } else if v == 5 {
        '5'
    } else if v == 6 {
        '6'
    } else if v == 7 {
        '7'
    } else if v == 8 {
        '8'
    } else if v == 9 {
        '9'
    } else if v == 10 {
        'a'
    } else if v == 11 {
        'b'
    } else if v == 12 {
        'c'
    } else if v == 13 {
        'd'
    } else if v == 14 {
        'e'
    } else {
        'f'
    }
}

/// The bytes written in lower-case hexadecimal, two digits each, the high
/// half first.
pub open spec fn hex_lower(bytes: Seq<u8>) -> Seq<char> {
    Seq::new(
        2 * bytes.len(),
        |i: int|
            if i % 2 == 0 {
                hex_digit(bytes[i / 2] as int / 16)
            } else {
                hex_digit(bytes[i / 2] as int % 16)
            },
    )
}

/// The most bytes that are written in hexadecimal in one piece: 2^23 - 1,
/// the length up to which `data_encoding` encodes on every machine.
pub const ENCODE_LIMIT: usize = 8_388_607;

/// Calls `hex::encode`, which writes each byte as two lower-case hexadecimal
/// digits, the high half first. The text has twice the length of the input;
/// the input is kept short enough for the text to be held on every machine.
#[verifier::external_body]
fn hex_string(bytes: &Vec<u8>) -> (r: String)
    requires
        bytes@.len() <= ENCODE_LIMIT,
    ensures
        r@ == hex_lower(bytes@),
{
    hex::encode(bytes)
}

/// Calls `data_encoding::HEXLOWER.encode`, the hexadecimal encoding over the
/// symbols `0123456789abcdef`: two digits for each byte, the high half
/// first. It refuses an input longer than `usize::MAX / 512` bytes, which is
/// 8,388,607 where a pointer has 32 bits and more elsewhere.
#[verifier::external_body]
fn hex_for_publication(bytes: &Vec<u8>) -> (r: String)
    requires
        bytes@.len() <= ENCODE_LIMIT,
    ensures
        r@ == hex_lower(bytes@),
{
    data_encoding::HEXLOWER.encode(bytes.as_slice())
}

/// The content hash of a database as the hash file writes it.
pub open spec fn content_hash(data: Seq<u8>) -> Seq<char> {
    hex_lower(sha512(data))
}

/// The content hash of `data`: its SHA-512 digest in lower-case hexadecimal;
/// none for data too long to hash in one piece.
pub fn hash_database(data: &Vec<u8>) -> (r: Option<String>)
    ensures
        r is Some <==> data@.len() < DIGEST_LIMIT,
        r is Some ==> r->Some_0@ == content_hash(data@) && r->Some_0@.len() == 128,
{
    if (data.len() as u64) < DIGEST_LIMIT {
        let digest = sha512_of(data);
        Some(hex_string(&digest))
    } else {
        None
    }
}

/// The text of the hash file that is published beside a generated database:
/// its content hash; none for a database too long to hash in one piece.
pub fn published_hash(data: &Vec<u8>) -> (r: Option<String>)
    ensures
        r is Some <==> data@.len() < DIGEST_LIMIT,
        r is Some ==> r->Some_0@ == content_hash(data@) && r->Some_0@.len() == 128,
{
    if (data.len() as u64) < DIGEST_LIMIT {
        let digest = sha512_of(data);
        Some(hex_for_publication(&digest))
    } else {
        None
    }
}

} // verus!
