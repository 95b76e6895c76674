use vstd::prelude::*;

use crate::errors::Error;

verus! {

/// Relies on ring's `SystemRandom` together with `SecureRandom::fill`: on
/// success the buffer is filled with cryptographically secure random bytes.
/// Nothing can be promised about the values, so only the length is stated.
#[verifier::external_body]
pub fn fill_random(buf: &mut Vec<u8>) -> (r: Result<(), Error>)
    ensures
        final(buf)@.len() == old(buf)@.len(),
        r is Err ==> r->Err_0 == Error::RandomUnavailable,
{
    let rng = ring::rand::SystemRandom::new();
    match ring::rand::SecureRandom::fill(&rng, buf.as_mut_slice()) {
        Ok(()) => Ok(()),
        Err(_) => Err(Error::RandomUnavailable),
    }
}

/// A fresh buffer of `n` random bytes.
pub fn random_bytes(n: usize) -> (r: Result<Vec<u8>, Error>)
    ensures
        r is Ok ==> r->Ok_0@.len() == n,
        r is Err ==> r->Err_0 == Error::RandomUnavailable,
{
    let mut buf: Vec<u8> = Vec::new();
    let mut i: usize = 0;
    while i < n
        invariant
            buf@.len() == i,
            i <= n,
        decreases n - i,
    {
        buf.push(0);
        i = i + 1;
    }
    fill_random(&mut buf)?;
    Ok(buf)
}

} // verus!
