//! The secure random source, behind a trusted wrapper.

use vstd::prelude::*;

verus! {

/// Relies on getrandom::getrandom: fills the buffer with bytes from the
/// operating system's secure random source, or reports that the source is
/// unavailable. Nothing can be promised of the bytes themselves.
#[verifier::external_body]
pub(crate) fn fill_random(n: usize) -> (r: Option<Vec<u8>>)
    ensures
        r matches Some(b) ==> b@.len() == n,
{
    let mut buf = vec![0u8; n];
    match getrandom::getrandom(&mut buf) {
        Ok(()) => Some(buf),
        Err(_) => None,
    }
}

} // verus!
