//! The access gate: the sole authorization check. A request's path-embedded
//! token authorizes exactly when it equals the configured secret byte for
//! byte — case-sensitive, no trimming, no hashing.

use vstd::prelude::*;
use crate::text::bytes_eq;

verus! {

/// Whether `token` authorizes against `secret`: true exactly on byte-exact
/// equality.
pub fn is_authorized(token: &Vec<u8>, secret: &Vec<u8>) -> (r: bool)
    ensures
        r == (token@ == secret@),
{
    bytes_eq(token, secret)
}

} // verus!
