use identity_core::errors::DecodeError;
use identity_core::policy::{HashingPolicy, Variant, Version};
use identity_core::record::HashRecord;

const PUBLISHED: &str =
    "$argon2i$v=19$m=4096,t=3,p=1$c29tZXNhbHQ$iWh06vD8Fy27wf9npn6FXWiCX4K6pW6Ue1Bnzz07Z8A";

#[test]
fn decode_reads_every_field() {
    let record = HashRecord::decode(PUBLISHED).unwrap();
    let policy = record.policy();
    assert_eq!(policy.variant(), Variant::Argon2i);
    assert_eq!(policy.version(), Version::Version13);
    assert_eq!(policy.memory_cost(), 4096);
    assert_eq!(policy.time_cost(), 3);
    assert_eq!(policy.lanes(), 1);
    assert_eq!(record.salt(), b"somesalt");
    assert_eq!(
        record.digest(),
        &[
            137, 104, 116, 234, 240, 252, 23, 45, 187, 193, 255, 103, 166, 126, 133, 93, 104, 130,
            95, 130, 186, 165, 110, 148, 123, 80, 103, 207, 61, 59, 103, 192
        ]
    );
}

#[test]
fn decode_then_encode_gives_the_same_text() {
    let texts = [
        PUBLISHED,
        "$argon2d$v=16$m=8,t=1,p=1$AAAAAAAAAAA$AAAAAA",
        "$argon2id$v=19$m=4294967295,t=4294967295,p=16777215$MDEyMzQ1Njc4OQ$/////w",
        "$argon2i$v=19$m=4096,t=3,p=4$YWJjZGVmZ2hpamtsbW5vcHFyc3R1dnd4eXo$BvBk2OaSofBHfbrUW61nHrWB/43xgfs/QJJ5DkMAd8I",
    ];
    for text in texts {
        let record = HashRecord::decode(text).unwrap();
        assert_eq!(record.encode(), text);
        assert_eq!(record.to_bytes(), text.as_bytes());
    }
}

#[test]
fn encode_then_decode_gives_the_same_record() {
    let policy = HashingPolicy::new(Variant::Argon2id, Version::Version13, 65536, 4, 8).unwrap();
    let salt: Vec<u8> = (0u8..=20).collect();
    let digest: Vec<u8> = (200u8..=255).collect();
    let record = HashRecord::new(policy, salt.clone(), digest.clone()).unwrap();
    let text = record.encode();
    assert_eq!(
        text,
        "$argon2id$v=19$m=65536,t=4,p=8$AAECAwQFBgcICQoLDA0ODxAREhMU$yMnKy8zNzs/Q0dLT1NXW19jZ2tvc3d7f4OHi4+Tl5ufo6err7O3u7/Dx8vP09fb3+Pn6+/z9/v8"
    );
    let back = HashRecord::decode(&text).unwrap();
    assert_eq!(back, record);
    assert_eq!(back.policy(), policy);
    assert_eq!(back.salt(), &salt[..]);
    assert_eq!(back.digest(), &digest[..]);
}

#[test]
fn encode_agrees_with_the_crate() {
    let config = argon2::Config {
        variant: argon2::Variant::Argon2d,
        version: argon2::Version::Version13,
        mem_cost: 32,
        time_cost: 1,
        lanes: 1,
        thread_mode: argon2::ThreadMode::Sequential,
        secret: &[],
        ad: &[],
        hash_length: 5,
    };
    let theirs = argon2::hash_encoded(b"pw", b"saltsalt9", &config).unwrap();
    let record = HashRecord::decode(&theirs).unwrap();
    assert_eq!(record.salt(), b"saltsalt9");
    assert_eq!(record.digest().len(), 5);
    assert_eq!(record.encode(), theirs);
}

#[test]
fn new_refuses_lengths_out_of_range() {
    let policy = HashingPolicy::new(Variant::Argon2i, Version::Version13, 8, 1, 1).unwrap();
    assert!(HashRecord::new(policy, vec![0; 7], vec![0; 32]).is_none());
    assert!(HashRecord::new(policy, vec![0; 8], vec![0; 3]).is_none());
    assert!(HashRecord::new(policy, vec![0; 8], vec![0; 4]).is_some());
}

#[test]
fn decode_refuses_text_that_is_no_record() {
    let refused = [
        "",
        "$",
        "argon2i$v=19$m=4096,t=3,p=1$c29tZXNhbHQ$iWh06vD8Fy27wf9npn6FXWiCX4K6pW6Ue1Bnzz07Z8A",
        "x$argon2i$v=19$m=4096,t=3,p=1$c29tZXNhbHQ$iWh06vD8Fy27wf9npn6FXWiCX4K6pW6Ue1Bnzz07Z8A",
        "$argon2i$m=4096,t=3,p=1$c29tZXNhbHQ$iWh06vD8Fy27wf9npn6FXWiCX4K6pW6Ue1Bnzz07Z8A",
        "$argon2i$v=19$m=4096,t=3,p=1$c29tZXNhbHQ$iWh06vD8Fy27wf9npn6FXWiCX4K6pW6Ue1Bnzz07Z8A$",
        "$Argon2i$v=19$m=4096,t=3,p=1$c29tZXNhbHQ$iWh06vD8Fy27wf9npn6FXWiCX4K6pW6Ue1Bnzz07Z8A",
        "$argon2$v=19$m=4096,t=3,p=1$c29tZXNhbHQ$iWh06vD8Fy27wf9npn6FXWiCX4K6pW6Ue1Bnzz07Z8A",
        "$argon2ii$v=19$m=4096,t=3,p=1$c29tZXNhbHQ$iWh06vD8Fy27wf9npn6FXWiCX4K6pW6Ue1Bnzz07Z8A",
        "$argon2i$v=17$m=4096,t=3,p=1$c29tZXNhbHQ$iWh06vD8Fy27wf9npn6FXWiCX4K6pW6Ue1Bnzz07Z8A",
        "$argon2i$v=019$m=4096,t=3,p=1$c29tZXNhbHQ$iWh06vD8Fy27wf9npn6FXWiCX4K6pW6Ue1Bnzz07Z8A",
        "$argon2i$V=19$m=4096,t=3,p=1$c29tZXNhbHQ$iWh06vD8Fy27wf9npn6FXWiCX4K6pW6Ue1Bnzz07Z8A",
        "$argon2i$v=19$m=04096,t=3,p=1$c29tZXNhbHQ$iWh06vD8Fy27wf9npn6FXWiCX4K6pW6Ue1Bnzz07Z8A",
        "$argon2i$v=19$m=+4096,t=3,p=1$c29tZXNhbHQ$iWh06vD8Fy27wf9npn6FXWiCX4K6pW6Ue1Bnzz07Z8A",
        "$argon2i$v=19$m=4294967296,t=3,p=1$c29tZXNhbHQ$iWh06vD8Fy27wf9npn6FXWiCX4K6pW6Ue1Bnzz07Z8A",
        "$argon2i$v=19$m=4096,t=,p=1$c29tZXNhbHQ$iWh06vD8Fy27wf9npn6FXWiCX4K6pW6Ue1Bnzz07Z8A",
        "$argon2i$v=19$t=3,m=4096,p=1$c29tZXNhbHQ$iWh06vD8Fy27wf9npn6FXWiCX4K6pW6Ue1Bnzz07Z8A",
        "$argon2i$v=19$m=4096,t=3$c29tZXNhbHQ$iWh06vD8Fy27wf9npn6FXWiCX4K6pW6Ue1Bnzz07Z8A",
        "$argon2i$v=19$m=4096,t=3,p=1,x=2$c29tZXNhbHQ$iWh06vD8Fy27wf9npn6FXWiCX4K6pW6Ue1Bnzz07Z8A",
        "$argon2i$v=19$m=4096, t=3,p=1$c29tZXNhbHQ$iWh06vD8Fy27wf9npn6FXWiCX4K6pW6Ue1Bnzz07Z8A",
        "$argon2i$v=19$m=4096,t=3,p=1$c29tZXNhbHQ=$iWh06vD8Fy27wf9npn6FXWiCX4K6pW6Ue1Bnzz07Z8A",
        "$argon2i$v=19$m=4096,t=3,p=1$c29tZXNhbHR$iWh06vD8Fy27wf9npn6FXWiCX4K6pW6Ue1Bnzz07Z8A",
        "$argon2i$v=19$m=4096,t=3,p=1$c29tZXNhbHQ$iWh06vD8Fy27wf9npn6FXWiCX4K6pW6Ue1Bnzz07Z8B",
        "$argon2i$v=19$m=4096,t=3,p=1$c29tZXNh_HQ$iWh06vD8Fy27wf9npn6FXWiCX4K6pW6Ue1Bnzz07Z8A",
        "$argon2i$v=19$m=4096,t=3,p=1$c29tZXNhbHQ$iWh06vD8Fy27wf9npn6FXWiCX4K6pW6Ue1Bnzz07Z8A\n",
        "$argon2i$v=19$m=4096,t=3,p=1$c29tZXNhbHQ$\u{e9}Wh06vD8Fy27wf9npn6FXWiCX4K6pW6Ue1Bnzz07Z8A",
    ];
    for text in refused {
        assert_eq!(HashRecord::decode(text), Err(DecodeError), "{}", text);
        assert_eq!(HashRecord::from_bytes(text.as_bytes()), Err(DecodeError), "{}", text);
    }
}

#[test]
fn decode_refuses_a_record_that_cannot_be_run() {
    let refused = [
        "$argon2i$v=19$m=4096,t=3,p=0$c29tZXNhbHQ$iWh06vD8Fy27wf9npn6FXWiCX4K6pW6Ue1Bnzz07Z8A",
        "$argon2i$v=19$m=4096,t=3,p=16777216$c29tZXNhbHQ$iWh06vD8Fy27wf9npn6FXWiCX4K6pW6Ue1Bnzz07Z8A",
        "$argon2i$v=19$m=7,t=3,p=1$c29tZXNhbHQ$iWh06vD8Fy27wf9npn6FXWiCX4K6pW6Ue1Bnzz07Z8A",
        "$argon2i$v=19$m=15,t=3,p=2$c29tZXNhbHQ$iWh06vD8Fy27wf9npn6FXWiCX4K6pW6Ue1Bnzz07Z8A",
        "$argon2i$v=19$m=4096,t=0,p=1$c29tZXNhbHQ$iWh06vD8Fy27wf9npn6FXWiCX4K6pW6Ue1Bnzz07Z8A",
        "$argon2i$v=19$m=4096,t=3,p=1$c29tZXNhbA$iWh06vD8Fy27wf9npn6FXWiCX4K6pW6Ue1Bnzz07Z8A",
        "$argon2i$v=19$m=4096,t=3,p=1$c29tZXNhbHQ$iWh0",
        "$argon2i$v=19$m=4096,t=3,p=1$$iWh06vD8Fy27wf9npn6FXWiCX4K6pW6Ue1Bnzz07Z8A",
        "$argon2i$v=19$m=4096,t=3,p=1$c29tZXNhbHQ$",
    ];
    for text in refused {
        assert_eq!(HashRecord::decode(text), Err(DecodeError), "{}", text);
    }
    assert!(HashRecord::decode("$argon2i$v=19$m=16,t=3,p=2$c29tZXNhbHQ$iWh06g").is_ok());
}
