//! Content hashing for the freshness check: a destination file or bundle
//! blob is current exactly when the SHA-1 of its bytes equals the hash the
//! manifest declares.

use vstd::prelude::*;

verus! {

/// The SHA-1 digest of a byte string, rendered as lowercase hex. Left
/// uninterpreted: it is a function of the bytes alone, and nothing but the
/// hashing library computes it.
pub uninterp spec fn sha1_of(bytes: Seq<u8>) -> Seq<char>;

/// Relies on sha1_smol::Sha1 and its Digest Display impl: hashing `data` in
/// one update and rendering the digest yields the SHA-1 of exactly those
/// bytes as 40 lowercase hex characters, a function of the bytes alone.
#[verifier::external_body]
pub(crate) fn sha1_hex(data: &Vec<u8>) -> (r: String)
    ensures
        r@ == sha1_of(data@),
        r@.len() == 40,
{
    let digest = sha1_smol::Sha1::from(data.as_slice()).digest();
    format!("{}", digest)
}

/// Decides whether in-memory content already carries the declared hash: the
/// freshness check on a loaded blob or file, which makes a re-run of the
/// synchronizer skip everything that is already current.
pub fn content_is_current(content: &Vec<u8>, expected: &String) -> (r: bool)
    ensures
        r == (sha1_of(content@) == expected@),
{
    let current = sha1_hex(content);
    crate::is_up_to_date(&current, expected)
}

} // verus!
