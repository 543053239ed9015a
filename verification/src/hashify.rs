//! Hashing a password into a record, and checking a password against one.

use crate::errors::{AuthFailure, HashError};
use crate::kdf::{argon2_digest, hash_raw, lengths_fit, verify_raw, MIN_SALT_LENGTH};
use crate::policy::{HashingPolicy, Parameters};
use crate::record::{lemma_record_of_encoding, record_of, HashRecord, RecordView};
use crate::salt::{generate_salt, is_salt};
use vstd::prelude::*;
use vstd::slice::slice_to_vec;
use vstd::utf8::encode_utf8;

verus! {

/// The number of bytes in the digest of a freshly hashed password.
pub const DIGEST_LENGTH: u32 = 32;

/// The digest that a record's own parameters and salt derive from `password`,
/// in the length of the digest that the record holds.
pub open spec fn digest_for(record: RecordView, password: Seq<u8>) -> Seq<u8> {
    argon2_digest(
        password,
        record.salt,
        record.params.variant.code(),
        record.params.version.number(),
        record.params.memory_cost,
        record.params.time_cost,
        record.params.lanes,
        record.digest.len() as u32,
    )
}

/// Whether `record` was made for `password`: the password is one that can be
/// hashed, and the record's digest is the one derived from it.
pub open spec fn made_for(record: RecordView, password: Seq<u8>) -> bool {
    &&& password.len() <= u32::MAX
    &&& record.digest == digest_for(record, password)
}

/// The record that hashing `password` with `salt` under `params` gives: those
/// parameters, that salt, and the digest of thirty-two bytes derived from them.
pub open spec fn issued(password: Seq<u8>, salt: Seq<u8>, params: Parameters) -> RecordView {
    RecordView {
        params,
        salt,
        digest: argon2_digest(
            password,
            salt,
            params.variant.code(),
            params.version.number(),
            params.memory_cost,
            params.time_cost,
            params.lanes,
            DIGEST_LENGTH,
        ),
    }
}

/// Whether `text` is what hashing `password` with `salt` under `params` gives:
/// the text of the record issued for them, which is a valid record with a
/// digest of thirty-two bytes, made for a password that can be hashed.
pub open spec fn is_hash_of(
    text: Seq<u8>,
    password: Seq<u8>,
    salt: Seq<u8>,
    params: Parameters,
) -> bool {
    let record = issued(password, salt, params);
    &&& text == record.encoding()
    &&& record.valid()
    &&& record.digest.len() == DIGEST_LENGTH
    &&& password.len() <= u32::MAX
}

/// What checking `password` against `text` gives.
///
/// Text that is no record is a decode error. A record accepts the password it
/// was made for and fails authorization for any other.
pub open spec fn verification(text: Seq<u8>, password: Seq<u8>) -> Result<(), AuthFailure> {
    match record_of(text) {
        None => Err(AuthFailure::DecodeError),
        Some(record) => if made_for(record, password) {
            Ok(())
        } else {
            Err(AuthFailure::AuthorizationFailed)
        },
    }
}

/// Hashes `password` with the given salt under `policy` and returns the record's text.
///
/// The same password, salt and policy always give the same text. A password
/// that is too long is refused before the salt is looked at.
pub fn hash_with_salt(
    password: &str,
    salt: &[u8],
    policy: &HashingPolicy,
) -> (r: Result<String, HashError>)
    ensures
        match r {
            Ok(text) => is_hash_of(encode_utf8(text@), encode_utf8(password@), salt@, policy@),
            Err(HashError::PasswordTooLong) => encode_utf8(password@).len() > u32::MAX,
            Err(HashError::SaltOutOfRange) => {
                &&& encode_utf8(password@).len() <= u32::MAX
                &&& !(MIN_SALT_LENGTH <= salt@.len() <= u32::MAX)
            },
        },
        r is Ok <==> lengths_fit(encode_utf8(password@).len(), salt@.len(), DIGEST_LENGTH as nat),
{
    let bytes = password.as_bytes();
    if bytes.len() > u32::MAX as usize {
        return Err(HashError::PasswordTooLong);
    }
    if salt.len() < MIN_SALT_LENGTH || salt.len() > u32::MAX as usize {
        return Err(HashError::SaltOutOfRange);
    }
    let params = policy.parameters();
    // With the lengths in range neither of the two calls fails.
    match hash_raw(bytes, salt, params, DIGEST_LENGTH) {
        Ok(digest) => match HashRecord::new(*policy, slice_to_vec(salt), digest) {
            Some(record) => {
                assert(record@ == issued(bytes@, salt@, policy@));
                Ok(record.encode())
            },
            None => Err(HashError::SaltOutOfRange),
        },
        Err(_) => Err(HashError::PasswordTooLong),
    }
}

/// Hashes `password` under `policy` with a fresh salt and returns the record's text.
///
/// Only a password of more bytes than fit in 32 bits is refused. An empty
/// password is hashed like any other: whether to allow one is the caller's
/// decision.
pub fn create_hash(password: &str, policy: &HashingPolicy) -> (r: Result<String, HashError>)
    ensures
        match r {
            Ok(text) => exists|salt: Seq<u8>|
                is_salt(salt) && #[trigger] is_hash_of(
                    encode_utf8(text@),
                    encode_utf8(password@),
                    salt,
                    policy@,
                ),
            Err(e) => e == HashError::PasswordTooLong,
        },
        r is Ok <==> encode_utf8(password@).len() <= u32::MAX,
{
    let salt = generate_salt();
    hash_with_salt(password, salt.as_slice(), policy)
}

/// Whether `record` was made for `password`.
///
/// The parameters and the salt are those that the record carries. The digests
/// are compared by the key-derivation crate, which does not stop at the first
/// difference. A password too long to be hashed is the password of no record.
pub fn verify_record(record: &HashRecord, password: &str) -> (accepted: bool)
    ensures
        accepted == made_for(record@, encode_utf8(password@)),
{
    proof {
        use_type_invariant(record);
    }
    let params = record.policy().parameters();
    match verify_raw(password.as_bytes(), record.salt(), record.digest(), params) {
        Ok(same) => same,
        Err(_) => false,
    }
}

/// Checks `password` against the record with the text `hash`.
///
/// Text that is no record is a decode error; a record that was made for
/// another password fails authorization. No policy of the moment enters:
/// the record is checked under the parameters that it carries.
pub fn verify(hash: &str, password: &str) -> (r: Result<(), AuthFailure>)
    ensures
        r == verification(encode_utf8(hash@), encode_utf8(password@)),
{
    match HashRecord::decode(hash) {
        Ok(record) => if verify_record(&record, password) {
            Ok(())
        } else {
            Err(AuthFailure::AuthorizationFailed)
        },
        Err(_) => Err(AuthFailure::DecodeError),
    }
}

/// A record accepts the password that it was made for: checking a password
/// against the text that hashing it gave succeeds, whatever the salt and the
/// policy were.
pub proof fn lemma_hash_verifies(
    text: Seq<u8>,
    password: Seq<u8>,
    salt: Seq<u8>,
    params: Parameters,
)
    requires
        is_hash_of(text, password, salt, params),
    ensures
        verification(text, password) == Ok::<(), AuthFailure>(()),
{
    lemma_record_of_encoding(issued(password, salt, params));
}

/// The text that hashing gave holds what went into it: read back, it is a
/// record with the parameters and the salt of the hashing.
pub proof fn lemma_hash_carries_parameters(
    text: Seq<u8>,
    password: Seq<u8>,
    salt: Seq<u8>,
    params: Parameters,
)
    requires
        is_hash_of(text, password, salt, params),
    ensures
        record_of(text) == Some(issued(password, salt, params)),
        made_for(issued(password, salt, params), password),
{
    lemma_record_of_encoding(issued(password, salt, params));
}

/// A record refuses every password whose digest differs from that of the
/// password it was made for, with an authorization failure.
///
/// Two different passwords with one digest under one salt would both be
/// accepted; none is known.
pub proof fn lemma_other_password_fails(
    text: Seq<u8>,
    password: Seq<u8>,
    other: Seq<u8>,
    salt: Seq<u8>,
    params: Parameters,
)
    requires
        is_hash_of(text, password, salt, params),
        issued(other, salt, params).digest != issued(password, salt, params).digest,
    ensures
        verification(text, other) == Err::<(), AuthFailure>(AuthFailure::AuthorizationFailed),
{
    lemma_record_of_encoding(issued(password, salt, params));
}

/// Hashing one password with two different salts gives two different texts,
/// and each of them accepts the password.
pub proof fn lemma_salts_tell_hashes_apart(
    first: Seq<u8>,
    second: Seq<u8>,
    password: Seq<u8>,
    first_salt: Seq<u8>,
    second_salt: Seq<u8>,
    params: Parameters,
)
    requires
        is_hash_of(first, password, first_salt, params),
        is_hash_of(second, password, second_salt, params),
        first_salt != second_salt,
    ensures
        first != second,
        verification(first, password) == Ok::<(), AuthFailure>(()),
        verification(second, password) == Ok::<(), AuthFailure>(()),
{
    lemma_hash_carries_parameters(first, password, first_salt, params);
    lemma_hash_carries_parameters(second, password, second_salt, params);
    lemma_hash_verifies(first, password, first_salt, params);
    lemma_hash_verifies(second, password, second_salt, params);
}

/// A record outlives the policy it was made under: what checking a password
/// against it gives is settled by the text and the password alone, so text
/// hashed under one policy still accepts its password when another policy is
/// in force, and is still read with the parameters it was hashed under.
pub proof fn lemma_policy_change_keeps_records(
    text: Seq<u8>,
    password: Seq<u8>,
    salt: Seq<u8>,
    issued_under: Parameters,
    in_force: Parameters,
)
    requires
        is_hash_of(text, password, salt, issued_under),
        in_force.valid(),
    ensures
        verification(text, password) == Ok::<(), AuthFailure>(()),
        record_of(text) matches Some(record) && record.params == issued_under,
{
    lemma_hash_verifies(text, password, salt, issued_under);
    lemma_hash_carries_parameters(text, password, salt, issued_under);
}

} // verus!
