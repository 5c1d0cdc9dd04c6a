use railway_rs::crypto::NtesCrypto;

const PAYLOAD: &str = "service=TrainRunningMob&subService=GetTrainSchedule&trainNo=12951&startDate=";

#[test]
fn golden_hash_matches_node_implementation() {
    assert_eq!(NtesCrypto::hash(PAYLOAD), "19CBAF6FE7CBDB479D0FC31FD28A9C5F");
}

#[test]
fn golden_encrypt_matches_node_implementation() {
    assert_eq!(
        NtesCrypto::encrypt(PAYLOAD),
        "6430384136355152636A2B7345435539465A72522B37364E7358716157656E6F756C52516F4A61695137766F626F4F7134597878445A62423061677A6841417453714E303959635A6A70384A6874477775437467323174717848366D796D2F595048644649727A4E43545573614A75623745714531596B4D3776775162673937"
    );
}

#[test]
fn build_has_expected_shape() {
    let b = NtesCrypto::build(PAYLOAD);
    let (h, enc) = b.split_once('#').unwrap();
    assert_eq!(h, NtesCrypto::hash(PAYLOAD));
    assert_eq!(enc, NtesCrypto::encrypt(PAYLOAD));
}

#[test]
fn decrypt_roundtrips_build() {
    let b = NtesCrypto::build(PAYLOAD);
    assert_eq!(NtesCrypto::decrypt(&b).unwrap(), PAYLOAD);
}

#[test]
fn decrypt_accepts_bare_ciphertext() {
    let enc = NtesCrypto::encrypt(PAYLOAD);
    assert_eq!(NtesCrypto::decrypt(&enc).unwrap(), PAYLOAD);
}

#[test]
fn decrypt_rejects_garbage() {
    assert!(NtesCrypto::decrypt("zz").is_err());
    assert!(NtesCrypto::decrypt("abcd1234").is_err());
}

#[test]
fn decrypt_names_each_rejection() {
    assert_eq!(NtesCrypto::decrypt("abc").unwrap_err().message(), "NTES: odd-length hex ciphertext");
    assert_eq!(NtesCrypto::decrypt("zz").unwrap_err().message(), "NTES: invalid hex ciphertext");
    assert_eq!(NtesCrypto::decrypt("ff").unwrap_err().message(), "NTES: ciphertext is not valid utf8");
    assert_eq!(NtesCrypto::decrypt("2a2a").unwrap_err().message(), "NTES: invalid base64 ciphertext");
    assert_eq!(NtesCrypto::decrypt("41414141").unwrap_err().message(), "NTES: ciphertext length not a multiple of 16");
}

#[test]
fn padding_always_adds_a_final_block() {
    let p = NtesCrypto::pad(&[1u8; 16]);
    assert_eq!(p.len(), 48);
    assert!(p[16..].iter().all(|&b| b == 16));
    let q = NtesCrypto::pad(&[7u8; 3]);
    assert_eq!(q.len(), 32);
    assert!(q[3..16].iter().all(|&b| b == 13));
}

#[test]
fn unicode_payload_roundtrips() {
    let b = NtesCrypto::build("नई दिल्ली=1");
    assert_eq!(NtesCrypto::decrypt(&b).unwrap(), "नई दिल्ली=1");
}
