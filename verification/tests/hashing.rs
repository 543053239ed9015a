use identity_core::errors::{AuthFailure, HashError};
use identity_core::hashify::{create_hash, hash_with_salt, verify, verify_record, DIGEST_LENGTH};
use identity_core::policy::{HashingPolicy, Variant, Version};
use identity_core::record::HashRecord;
use identity_core::salt::{generate_salt, SALT_LENGTH};

fn policy() -> HashingPolicy {
    HashingPolicy::new(Variant::Argon2i, Version::Version13, 256, 2, 1).unwrap()
}

fn argon2_config(variant: argon2::Variant, version: argon2::Version, m: u32, t: u32, p: u32) -> argon2::Config<'static> {
    argon2::Config {
        variant,
        version,
        mem_cost: m,
        time_cost: t,
        lanes: p,
        thread_mode: argon2::ThreadMode::Sequential,
        secret: &[],
        ad: &[],
        hash_length: 32,
    }
}

#[test]
fn test_crate_hash() {
    let password = "somepassword";
    let hash = create_hash(password, &policy()).unwrap();
    assert!(argon2::verify_encoded(&hash, password.as_bytes()).unwrap());
}

#[test]
fn test_unauthorized_verify() {
    let password = "somepassword";
    let hash = create_hash(password, &policy()).unwrap();
    assert!(verify(&hash, "asdasd").is_err());
    assert_eq!(verify(&hash, "asdasd"), Err(AuthFailure::AuthorizationFailed));
}

#[test]
fn test_sucess_verify() {
    let password = "somepassword";
    let hash = create_hash(password, &policy()).unwrap();
    assert!(verify(&hash, password).is_ok());
    assert_eq!(verify(&hash, password), Ok(()));
}

#[test]
fn hash_with_salt_gives_the_published_record() {
    let policy = HashingPolicy::new(Variant::Argon2i, Version::Version13, 4096, 3, 1).unwrap();
    let hash = hash_with_salt("password", b"somesalt", &policy).unwrap();
    assert_eq!(
        hash,
        "$argon2i$v=19$m=4096,t=3,p=1$c29tZXNhbHQ$iWh06vD8Fy27wf9npn6FXWiCX4K6pW6Ue1Bnzz07Z8A"
    );
}

#[test]
fn verify_accepts_the_published_record() {
    let hash = "$argon2i$v=19$m=4096,t=3,p=1$c29tZXNhbHQ$iWh06vD8Fy27wf9npn6FXWiCX4K6pW6Ue1Bnzz07Z8A";
    assert_eq!(verify(hash, "password"), Ok(()));
    assert_eq!(verify(hash, "Password"), Err(AuthFailure::AuthorizationFailed));
    assert_eq!(verify(hash, ""), Err(AuthFailure::AuthorizationFailed));
}

#[test]
fn verify_accepts_a_record_of_four_lanes() {
    let hash = "$argon2i$v=19$m=4096,t=3,p=4$YWJjZGVmZ2hpamtsbW5vcHFyc3R1dnd4eXo$BvBk2OaSofBHfbrUW61nHrWB/43xgfs/QJJ5DkMAd8I";
    assert_eq!(verify(hash, "foo"), Ok(()));
    assert_eq!(verify(hash, "bar"), Err(AuthFailure::AuthorizationFailed));
}

#[test]
fn hash_with_salt_agrees_with_the_crate_for_each_variant() {
    let cases = [
        (Variant::Argon2d, argon2::Variant::Argon2d, Version::Version13, argon2::Version::Version13),
        (Variant::Argon2i, argon2::Variant::Argon2i, Version::Version10, argon2::Version::Version10),
        (Variant::Argon2id, argon2::Variant::Argon2id, Version::Version13, argon2::Version::Version13),
    ];
    for (variant, outside_variant, version, outside_version) in cases {
        let policy = HashingPolicy::new(variant, version, 64, 2, 2).unwrap();
        let ours = hash_with_salt("pass word", b"0123456789abcdef", &policy).unwrap();
        let config = argon2_config(outside_variant, outside_version, 64, 2, 2);
        let theirs = argon2::hash_encoded(b"pass word", b"0123456789abcdef", &config).unwrap();
        assert_eq!(ours, theirs);
    }
}

#[test]
fn hash_with_salt_is_a_function_of_its_arguments() {
    let first = hash_with_salt("secret", b"saltsaltsalt", &policy()).unwrap();
    let second = hash_with_salt("secret", b"saltsaltsalt", &policy()).unwrap();
    assert_eq!(first, second);
    let third = hash_with_salt("secret", b"saltsaltsalu", &policy()).unwrap();
    assert_ne!(first, third);
}

#[test]
fn hash_with_salt_refuses_a_salt_out_of_range() {
    assert_eq!(hash_with_salt("secret", b"1234567", &policy()), Err(HashError::SaltOutOfRange));
    assert_eq!(hash_with_salt("secret", b"", &policy()), Err(HashError::SaltOutOfRange));
    assert!(hash_with_salt("secret", b"12345678", &policy()).is_ok());
}

#[test]
fn empty_password_is_hashed_like_any_other() {
    let hash = create_hash("", &policy()).unwrap();
    assert_eq!(verify(&hash, ""), Ok(()));
    assert_eq!(verify(&hash, " "), Err(AuthFailure::AuthorizationFailed));
}

#[test]
fn password_is_taken_as_its_utf8_bytes() {
    let hash = hash_with_salt("p\u{e4}ssw\u{f6}rd", b"somesalt", &policy()).unwrap();
    let config = argon2_config(argon2::Variant::Argon2i, argon2::Version::Version13, 256, 2, 1);
    let theirs = argon2::hash_encoded("p\u{e4}ssw\u{f6}rd".as_bytes(), b"somesalt", &config).unwrap();
    assert_eq!(hash, theirs);
    assert_eq!(verify(&hash, "p\u{e4}ssw\u{f6}rd"), Ok(()));
    assert_eq!(verify(&hash, "password"), Err(AuthFailure::AuthorizationFailed));
}

#[test]
fn wrong_password_fails_authorization() {
    let hash = create_hash("correct-password", &policy()).unwrap();
    assert_eq!(verify(&hash, "wrong-password"), Err(AuthFailure::AuthorizationFailed));
}

#[test]
fn every_password_verifies_against_its_own_hash() {
    for password in ["a", "somepassword", "with space and \u{1f600}", "0123456789012345678901234567890123456789"] {
        let hash = create_hash(password, &policy()).unwrap();
        assert_eq!(verify(&hash, password), Ok(()));
    }
}

#[test]
fn two_hashes_of_one_password_differ_and_both_verify() {
    let first = create_hash("somepassword", &policy()).unwrap();
    let second = create_hash("somepassword", &policy()).unwrap();
    assert_ne!(first, second);
    assert_eq!(verify(&first, "somepassword"), Ok(()));
    assert_eq!(verify(&second, "somepassword"), Ok(()));
}

#[test]
fn old_record_verifies_after_the_policy_changed() {
    let old = HashingPolicy::new(Variant::Argon2i, Version::Version10, 128, 1, 1).unwrap();
    let hash = create_hash("somepassword", &old).unwrap();
    let new = HashingPolicy::new(Variant::Argon2id, Version::Version13, 512, 3, 2).unwrap();
    let newer = create_hash("somepassword", &new).unwrap();
    assert_eq!(verify(&hash, "somepassword"), Ok(()));
    assert_eq!(verify(&newer, "somepassword"), Ok(()));
    let record = HashRecord::decode(&hash).unwrap();
    assert_eq!(record.policy(), old);
}

#[test]
fn created_hash_holds_policy_salt_and_digest() {
    let policy = HashingPolicy::new(Variant::Argon2id, Version::Version13, 128, 2, 3).unwrap();
    let hash = create_hash("somepassword", &policy).unwrap();
    assert!(hash.starts_with("$argon2id$v=19$m=128,t=2,p=3$"));
    let record = HashRecord::decode(&hash).unwrap();
    assert_eq!(record.policy(), policy);
    assert_eq!(record.salt().len(), SALT_LENGTH);
    assert!(record.salt().iter().all(|b| b.is_ascii_alphanumeric()));
    assert_eq!(record.digest().len(), DIGEST_LENGTH as usize);
}

#[test]
fn malformed_record_is_a_decode_error() {
    assert_eq!(verify("", "password"), Err(AuthFailure::DecodeError));
    assert_eq!(verify("not a record", "password"), Err(AuthFailure::DecodeError));
    assert_eq!(
        verify("$argon2i$v=19$m=4096,t=3,p=1$c29tZXNhbHQ", "password"),
        Err(AuthFailure::DecodeError)
    );
    assert_eq!(
        verify("$argon2i$v=19$m=4096,t=3,p=0$c29tZXNhbHQ$iWh06vD8Fy27wf9npn6FXWiCX4K6pW6Ue1Bnzz07Z8A", "password"),
        Err(AuthFailure::DecodeError)
    );
}

#[test]
fn salt_has_thirty_two_letters_and_digits() {
    let salt = generate_salt();
    assert_eq!(salt.len(), 32);
    assert!(salt.iter().all(|b| b.is_ascii_alphanumeric()));
}

#[test]
fn salts_are_fresh() {
    let first = generate_salt();
    let second = generate_salt();
    assert_ne!(first, second);
}

#[test]
fn record_accepts_the_password_it_was_made_for() {
    let hash = "$argon2i$v=19$m=4096,t=3,p=1$c29tZXNhbHQ$iWh06vD8Fy27wf9npn6FXWiCX4K6pW6Ue1Bnzz07Z8A";
    let record = HashRecord::decode(hash).unwrap();
    assert!(verify_record(&record, "password"));
    assert!(!verify_record(&record, "passwore"));
    assert!(!verify_record(&record, ""));
}

#[test]
fn record_with_a_changed_digest_accepts_nothing() {
    let policy = HashingPolicy::new(Variant::Argon2i, Version::Version13, 4096, 3, 1).unwrap();
    let good = HashRecord::decode(
        "$argon2i$v=19$m=4096,t=3,p=1$c29tZXNhbHQ$iWh06vD8Fy27wf9npn6FXWiCX4K6pW6Ue1Bnzz07Z8A",
    )
    .unwrap();
    let mut digest = good.digest().to_vec();
    digest[31] ^= 1;
    let changed = HashRecord::new(policy, good.salt().to_vec(), digest).unwrap();
    assert!(!verify_record(&changed, "password"));
    let shorter = HashRecord::new(policy, good.salt().to_vec(), good.digest()[..31].to_vec()).unwrap();
    assert!(!verify_record(&shorter, "password"));
}
