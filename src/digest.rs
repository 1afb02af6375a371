//! Content digests: SHA-512 of non-empty content, a reserved all-zero
//! digest for the empty blob, and the hexadecimal object-store key.
use vstd::prelude::*;

verus! {

/// Length in bytes of a content digest.
pub const DIGEST_LENGTH: usize = 64;

/// The SHA-512 digest of a byte sequence.
pub uninterp spec fn sha512_of(b: Seq<u8>) -> Seq<u8>;

/// Relies on sha2::Sha512 (through `Digest::digest`): the digest of the input
/// bytes, which depends on them alone and is 64 bytes long.
#[verifier::external_body]
fn sha512(data: &Vec<u8>) -> (r: Vec<u8>)
    ensures
        r@ == sha512_of(data@),
        r@.len() == DIGEST_LENGTH,
{
    <sha2::Sha512 as sha2::Digest>::digest(data.as_slice()).to_vec()
}

/// The reserved digest of the virtual empty blob: 64 zero bytes.
pub open spec fn is_empty_digest(d: Seq<u8>) -> bool {
    d =~= Seq::new(DIGEST_LENGTH as nat, |i: int| 0u8)
}

/// The digest that content is stored under: the empty blob has the reserved
/// all-zero digest, everything else its SHA-512 digest.
pub open spec fn digest_of(b: Seq<u8>) -> Seq<u8> {
    if b.len() == 0 {
        Seq::new(DIGEST_LENGTH as nat, |i: int| 0u8)
    } else {
        sha512_of(b)
    }
}

/// Returns the reserved digest of the empty blob.
pub fn empty_digest() -> (r: Vec<u8>)
    ensures
        is_empty_digest(r@),
{
    let mut v: Vec<u8> = Vec::new();
    let mut i: usize = 0;
    while i < DIGEST_LENGTH
        invariant
            i <= DIGEST_LENGTH,
            v@.len() == i,
            forall|j: int| 0 <= j < i ==> v@[j] == 0u8,
        decreases DIGEST_LENGTH - i,
    {
        v.push(0u8);
        i = i + 1;
    }
    v
}

/// Tells whether `d` is the reserved digest of the empty blob.
pub fn is_empty_blob_digest(d: &[u8]) -> (r: bool)
    ensures
        r == is_empty_digest(d@),
{
    if d.len() != DIGEST_LENGTH {
        return false;
    }
    let mut i: usize = 0;
    while i < d.len()
        invariant
            d@.len() == DIGEST_LENGTH,
            i <= d@.len(),
            forall|j: int| 0 <= j < i ==> d@[j] == 0u8,
        decreases d@.len() - i,
    {
        if d[i] != 0 {
            return false;
        }
        i = i + 1;
    }
    proof {
        assert(d@ =~= Seq::new(DIGEST_LENGTH as nat, |i: int| 0u8));
    }
    true
}

/// Computes the digest that `data` is stored under.
pub fn compute_digest(data: &Vec<u8>) -> (r: Vec<u8>)
    ensures
        r@ == digest_of(data@),
        r@.len() == DIGEST_LENGTH,
{
    if data.len() == 0 {
        empty_digest()
    } else {
        sha512(data)
    }
}

/// The lowercase hexadecimal digit for a value below 16.
pub open spec fn hex_digit(n: u8) -> char {
    if n < 10 {
        (('0' as u8) + n) as char
    } else {
        (('a' as u8) + (n - 10)) as char
    }
}

/// Lowercase hexadecimal text of a byte sequence, two digits per byte, high
/// nibble first.
pub open spec fn hex_of(b: Seq<u8>) -> Seq<char>
    decreases b.len(),
{
    if b.len() == 0 {
        Seq::empty()
    } else {
        hex_of(b.drop_last()) + seq![hex_digit(b.last() / 16), hex_digit(b.last() % 16)]
    }
}

/// Relies on hex::encode: lowercase hexadecimal text, two digits per byte.
#[verifier::external_body]
fn hex_encode(b: &[u8]) -> (r: String)
    ensures
        r@ == hex_of(b@),
{
    hex::encode(b)
}

/// The object-store key of a permanent blob: the lowercase hex text of its
/// digest.
pub fn blob_key(digest: &[u8]) -> (r: String)
    ensures
        r@ == hex_of(digest@),
{
    hex_encode(digest)
}

} // verus!
