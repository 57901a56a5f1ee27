//! Password hashing for the RustDesk login, over the `sha2` crate.

use vstd::prelude::*;
use vstd::string::StringSliceAdditionalSpecFns;
use sha2::{Digest, Sha256};

verus! {

/// The SHA-256 digest of `data`.
pub uninterp spec fn sha256(data: Seq<u8>) -> Seq<u8>;

/// `sha2::Sha256::digest`: the 32-byte SHA-256 digest of `data`. The contract
/// names the digest; it says nothing of its bytes beyond their number.
#[verifier::external_body]
fn sha256_digest(data: &[u8]) -> (r: Vec<u8>)
    ensures
        r@ == sha256(data@),
        r@.len() == 32,
{
    Sha256::digest(data).to_vec()
}

/// The login proof RustDesk expects: SHA-256 over the password and the salt,
/// then SHA-256 over that digest and the challenge.
pub open spec fn password_hash_spec(password: Seq<u8>, salt: Seq<u8>, challenge: Seq<u8>) -> Seq<
    u8,
> {
    sha256(sha256(password + salt) + challenge)
}

pub fn password_hash(password: &[u8], salt: &str, challenge: &str) -> (r: Vec<u8>)
    ensures
        r@ == password_hash_spec(password@, salt.spec_bytes(), challenge.spec_bytes()),
        r@.len() == 32,
{
    let mut first: Vec<u8> = Vec::new();
    first.extend_from_slice(password);
    first.extend_from_slice(salt.as_bytes());
    assert(first@ =~= password@ + salt.spec_bytes());
    let hashed = sha256_digest(first.as_slice());
    let mut second: Vec<u8> = Vec::new();
    second.extend_from_slice(hashed.as_slice());
    second.extend_from_slice(challenge.as_bytes());
    assert(second@ =~= hashed@ + challenge.spec_bytes());
    sha256_digest(second.as_slice())
}

/// SHA-256 of `password` followed by `suffix`.
pub fn salted_digest(password: &[u8], suffix: &[u8]) -> (r: Vec<u8>)
    ensures
        r@ == sha256(password@ + suffix@),
        r@.len() == 32,
{
    let mut all: Vec<u8> = Vec::new();
    all.extend_from_slice(password);
    all.extend_from_slice(suffix);
    assert(all@ =~= password@ + suffix@);
    sha256_digest(all.as_slice())
}

} // verus!
