//! Exact content fingerprints.
//!
//! Byte-identical files are recognised by a strong 256-bit content digest.
//! The digest itself comes from an outside implementation; everything said
//! about it here is that it is 32 bytes and a function of the content
//! alone.

use vstd::prelude::*;

use sha2::Digest;

verus! {

/// What the digest algorithm yields for a byte sequence.  Equal contents
/// give equal digests; that two differing contents collide is only
/// overwhelmingly improbable, so nothing is claimed of it.
pub uninterp spec fn sha256_of(data: Seq<u8>) -> Seq<u8>;

/// The hexadecimal digit for a value below 16, lower case.
pub open spec fn hex_digit(n: int) -> char {
    if n == 0 {
        '0'
    } else if n == 1 {
        '1'
    } else if n == 2 {
        '2'
    } else if n == 3 {
        '3'
    } else if n == 4 {
        '4'
    } else if n == 5 {
        '5'
    } else if n == 6 {
        '6'
    } else if n == 7 {
        '7'
    } else if n == 8 {
        '8'
    } else if n == 9 {
        '9'
    } else if n == 10 {
        'a'
    } else if n == 11 {
        'b'
    } else if n == 12 {
        'c'
    } else if n == 13 {
        'd'
    } else if n == 14 {
        'e'
    } else {
        'f'
    }
}

/// Lower-case hexadecimal text of a byte sequence, two digits per byte,
/// high digit first.
pub open spec fn hex_of(data: Seq<u8>) -> Seq<char>
    decreases data.len(),
{
    if data.len() == 0 {
        Seq::empty()
    } else {
        hex_of(data.drop_last()) + seq![
            hex_digit(data.last() as int / 16),
            hex_digit(data.last() as int % 16),
        ]
    }
}

/// Relies on `hex::encode`: the text is the bytes in order, two lower-case
/// hexadecimal digits each, high digit first.
#[verifier::external_body]
fn hex_encode(data: &Vec<u8>) -> (r: String)
    ensures
        r@ == hex_of(data@),
{
    hex::encode(data)
}

/// Computes exact content digests.
pub struct ExactHasher;

impl ExactHasher {
    /// The 256-bit digest of a file's content.
    ///
    /// Relies on `sha2::Sha256` through `Digest::digest`: the digest is 32
    /// bytes and a function of the input bytes alone.
    #[verifier::external_body]
    pub fn compute_hash(data: &Vec<u8>) -> (r: Vec<u8>)
        ensures
            r@ == sha256_of(data@),
            r@.len() == 32,
    {
        sha2::Sha256::digest(data.as_slice()).to_vec()
    }

    /// The digest of a file's content as lower-case hexadecimal text.
    pub fn compute_hash_string(data: &Vec<u8>) -> (r: String)
        ensures
            r@ == hex_of(sha256_of(data@)),
    {
        let hash = Self::compute_hash(data);
        hex_encode(&hash)
    }

    /// Whether two file contents carry the same digest.
    pub fn files_equal(data1: &Vec<u8>, data2: &Vec<u8>) -> (r: bool)
        ensures
            r == (sha256_of(data1@) == sha256_of(data2@)),
    {
        let hash1 = Self::compute_hash(data1);
        let hash2 = Self::compute_hash(data2);
        digests_equal(&hash1, &hash2)
    }
}

/// Byte-for-byte equality of two digests.
pub fn digests_equal(a: &Vec<u8>, b: &Vec<u8>) -> (r: bool)
    ensures
        r == (a@ == b@),
{
    if a.len() != b.len() {
        return false;
    }
    let n = a.len();
    for i in 0..n
        invariant
            n == a@.len(),
            n == b@.len(),
            forall|k: int| 0 <= k < i ==> a@[k] == b@[k],
    {
        if a[i] != b[i] {
            return false;
        }
    }
    proof {
        assert(a@ =~= b@);
    }
    true
}

/// A fresh copy of a digest's bytes.
pub fn copy_bytes(d: &Vec<u8>) -> (r: Vec<u8>)
    ensures
        r@ == d@,
{
    let n = d.len();
    let mut r: Vec<u8> = Vec::new();
    for i in 0..n
        invariant
            n == d@.len(),
            r@.len() == i,
            forall|k: int| 0 <= k < i ==> r@[k] == d@[k],
    {
        r.push(d[i]);
    }
    proof {
        assert(r@ =~= d@);
    }
    r
}

/// Byte-identical contents always carry the same exact fingerprint: the
/// digest is a function of the content alone.
pub proof fn lemma_equal_content_equal_digest(a: Seq<u8>, b: Seq<u8>)
    requires
        a == b,
    ensures
        sha256_of(a) == sha256_of(b),
{
}

} // verus!
