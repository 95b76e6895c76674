use vstd::prelude::*;

verus! {

/// Relies on zeroize's `Zeroize` for `String`: overwrites the bytes with
/// zeroes through a write the compiler may not elide, then clears.
#[verifier::external_body]
pub fn wipe_string(s: &mut String)
    ensures
        final(s)@.len() == 0,
{
    zeroize::Zeroize::zeroize(s);
}

/// Relies on zeroize's `Zeroize` for `Vec<u8>`: overwrites the contents
/// and the spare capacity with zeroes, then clears.
#[verifier::external_body]
pub fn wipe_bytes(v: &mut Vec<u8>)
    ensures
        final(v)@.len() == 0,
{
    zeroize::Zeroize::zeroize(v);
}

} // verus!
