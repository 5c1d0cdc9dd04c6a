use railway_rs::validate::{clamp_q, clamp_query, is_valid_pnr, is_valid_train_1_8, is_valid_train_4_5, is_valid_train_5};

#[test]
fn t5() {
    assert!(is_valid_train_5("12951"));
    assert!(!is_valid_train_5("00000"));
}

#[test]
fn train_number_shapes() {
    assert!(is_valid_train_1_8("1"));
    assert!(is_valid_train_1_8("12345678"));
    assert!(!is_valid_train_1_8("123456789"));
    assert!(!is_valid_train_1_8("12a"));
    assert!(is_valid_train_4_5("1234"));
    assert!(!is_valid_train_4_5("123"));
    assert!(!is_valid_train_5("1295"));
}

#[test]
fn pnr_is_ten_digits() {
    assert!(is_valid_pnr("1234567890"));
    assert!(!is_valid_pnr("123456789"));
    assert!(!is_valid_pnr("12345678x0"));
}

#[test]
fn queries_are_clamped_by_characters() {
    assert_eq!(clamp_query(Some("abcdef"), 3), "abc");
    assert_eq!(clamp_query(None, 3), "");
    assert_eq!(clamp_q(Some("short")), "short");
    let long: String = std::iter::repeat('x').take(200).collect();
    assert_eq!(clamp_q(Some(&long)).chars().count(), 128);
}
