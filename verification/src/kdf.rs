//! The memory-hard key-derivation function, which the `argon2` crate computes.
//!
//! Nothing in this file is proved: it states what the library takes on trust
//! from that crate.

use crate::policy::{Parameters, Variant, Version, BLOCK_BYTES};
use vstd::prelude::*;

verus! {

/// The fewest bytes a salt may have.
pub const MIN_SALT_LENGTH: usize = 8;

/// The fewest bytes a digest may have.
pub const MIN_DIGEST_LENGTH: usize = 4;

#[verifier::external_type_specification]
#[verifier::external_body]
pub struct ExKdfError(argon2::Error);

/// What `argon2::hash_raw` computes: the Argon2 digest of `length` bytes for
/// a password and a salt, without secret or associated data, under the
/// variant and revision with the given numbers and the given costs.
pub uninterp spec fn argon2_digest(
    password: Seq<u8>,
    salt: Seq<u8>,
    variant: u32,
    version: u32,
    memory_cost: u32,
    time_cost: u32,
    lanes: u32,
    length: u32,
) -> Seq<u8>;

/// Whether password, salt and digest have lengths that the function works on.
pub open spec fn lengths_fit(password: nat, salt: nat, digest: nat) -> bool {
    &&& password <= u32::MAX
    &&& MIN_SALT_LENGTH <= salt <= u32::MAX
    &&& MIN_DIGEST_LENGTH <= digest <= u32::MAX
}

/// `argon2::hash_raw`, run in one thread.
///
/// The call succeeds exactly when the parameters are valid and the lengths
/// fit. The digest then has the length asked for and is the Argon2 digest of
/// the arguments. Left out are memory costs and lengths beyond this machine's
/// address space, on which the crate's allocation would panic.
#[verifier::external_body]
pub(crate) fn hash_raw(
    password: &[u8],
    salt: &[u8],
    params: Parameters,
    length: u32,
) -> (r: Result<Vec<u8>, argon2::Error>)
    requires
        params.memory_cost * BLOCK_BYTES <= isize::MAX,
        length <= isize::MAX,
    ensures
        r.is_ok() == (params.valid() && lengths_fit(password@.len(), salt@.len(), length as nat)),
        r matches Ok(digest) ==> digest@.len() == length,
        r matches Ok(digest) ==> digest@ == argon2_digest(
            password@,
            salt@,
            params.variant.code(),
            params.version.number(),
            params.memory_cost,
            params.time_cost,
            params.lanes,
            length,
        ),
{
    let variant = match params.variant {
        Variant::Argon2d => argon2::Variant::Argon2d,
        Variant::Argon2i => argon2::Variant::Argon2i,
        Variant::Argon2id => argon2::Variant::Argon2id,
    };
    let version = match params.version {
        Version::Version10 => argon2::Version::Version10,
        Version::Version13 => argon2::Version::Version13,
    };
    let (mem_cost, time_cost, lanes) = (params.memory_cost, params.time_cost, params.lanes);
    let thread_mode = argon2::ThreadMode::Sequential;
    let (secret, ad, hash_length): (&[u8], &[u8], u32) = (&[], &[], length);
    let config = argon2::Config { variant, version, mem_cost, time_cost, lanes, thread_mode, secret, ad, hash_length };
    argon2::hash_raw(password, salt, &config)
}

/// `argon2::verify_raw`, run in one thread.
///
/// The call succeeds exactly when the parameters are valid and the lengths
/// fit. It then says whether `digest` is the Argon2 digest of its own length
/// for the other arguments: the crate derives that digest as `hash_raw` does
/// and compares the two without stopping at the first difference. Left out
/// are memory costs beyond this machine's address space and digests whose
/// length does not fit in 32 bits.
#[verifier::external_body]
pub(crate) fn verify_raw(
    password: &[u8],
    salt: &[u8],
    digest: &[u8],
    params: Parameters,
) -> (r: Result<bool, argon2::Error>)
    requires
        params.memory_cost * BLOCK_BYTES <= isize::MAX,
        digest@.len() <= u32::MAX,
    ensures
        r.is_ok() == (params.valid() && lengths_fit(password@.len(), salt@.len(), digest@.len())),
        r matches Ok(same) ==> same == (digest@ == argon2_digest(
            password@,
            salt@,
            params.variant.code(),
            params.version.number(),
            params.memory_cost,
            params.time_cost,
            params.lanes,
            digest@.len() as u32,
        )),
{
    let variant = match params.variant {
        Variant::Argon2d => argon2::Variant::Argon2d,
        Variant::Argon2i => argon2::Variant::Argon2i,
        Variant::Argon2id => argon2::Variant::Argon2id,
    };
    let version = match params.version {
        Version::Version10 => argon2::Version::Version10,
        Version::Version13 => argon2::Version::Version13,
    };
    let (mem_cost, time_cost, lanes) = (params.memory_cost, params.time_cost, params.lanes);
    let thread_mode = argon2::ThreadMode::Sequential;
    let (secret, ad, hash_length): (&[u8], &[u8], u32) = (&[], &[], digest.len() as u32);
    let config = argon2::Config { variant, version, mem_cost, time_cost, lanes, thread_mode, secret, ad, hash_length };
    argon2::verify_raw(password, salt, digest, &config)
}

} // verus!
