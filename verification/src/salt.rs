//! Fresh salts, drawn from the thread's random generator.

use rand::Rng;
use vstd::prelude::*;

verus! {

/// The number of characters in a fresh salt.
pub const SALT_LENGTH: usize = 32;

/// Whether `b` is an ASCII letter or digit.
pub open spec fn is_alphanumeric(b: u8) -> bool {
    48 <= b <= 57 || 65 <= b <= 90 || 97 <= b <= 122
}

/// Whether `s` has the form of a fresh salt: thirty-two letters and digits.
pub open spec fn is_salt(s: Seq<u8>) -> bool {
    &&& s.len() == SALT_LENGTH
    &&& forall|i: int| 0 <= i < s.len() ==> is_alphanumeric(#[trigger] s[i])
}

/// One sample of `rand`'s `Alphanumeric` from `thread_rng`.
///
/// The result is a letter or a digit; which one is left open.
#[verifier::external_body]
fn random_alphanumeric() -> (b: u8)
    ensures
        is_alphanumeric(b),
{
    let c: char = rand::thread_rng().sample(rand::distributions::Alphanumeric);
    c as u8
}

/// Draws a fresh salt.
///
/// No two calls need agree: the characters come from the random generator.
pub fn generate_salt() -> (salt: Vec<u8>)
    ensures
        is_salt(salt@),
{
    let mut salt: Vec<u8> = Vec::new();
    let mut i: usize = 0;
    while i < SALT_LENGTH
        invariant
            0 <= i <= SALT_LENGTH,
            salt@.len() == i,
            forall|k: int| 0 <= k < salt@.len() ==> is_alphanumeric(#[trigger] salt@[k]),
        decreases SALT_LENGTH - i,
    {
        let b = random_alphanumeric();
        salt.push(b);
        i = i + 1;
    }
    salt
}

} // verus!
