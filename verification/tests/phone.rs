use sword::phone::{generate_random_phone, generate_realistic_phone, random_phone_region, PhoneRegion};

const CHINA_MOBILE_PREFIXES: &[&str] = &[
    "130", "131", "132", "133", "134", "135", "136", "137", "138", "139",
    "150", "151", "152", "153", "155", "156", "157", "158", "159",
    "180", "181", "182", "183", "184", "185", "186", "187", "188", "189",
    "170", "171",
];

#[test]
fn test_phone_region_creation_valid() {
    let pr1 = PhoneRegion::new("1234567".to_string(), 100);
    assert!(pr1.is_ok());
    assert_eq!(pr1.unwrap().phone.len(), 7);

    let pr2 = PhoneRegion::new("12345678".to_string(), 200);
    assert!(pr2.is_ok());

    let pr3 = PhoneRegion::new("123456789".to_string(), 300);
    assert!(pr3.is_ok());
}

#[test]
fn test_phone_region_creation_invalid() {
    let pr1 = PhoneRegion::new("123456".to_string(), 100);
    assert!(pr1.is_err());

    let pr2 = PhoneRegion::new("1234567890".to_string(), 200);
    assert!(pr2.is_err());
}

#[test]
fn test_is_valid_phone_length() {
    let pr = PhoneRegion::new("1234567".to_string(), 100).unwrap();
    assert!(pr.is_valid_phone_length());
}

#[test]
fn phone_region_error_names_the_byte_length() {
    let err = PhoneRegion::new("123456".to_string(), 1).unwrap_err();
    assert_eq!(err, "phone length must be 7-9, got: 6");
    let err = PhoneRegion::new("1234567890".to_string(), 1).unwrap_err();
    assert_eq!(err, "phone length must be 7-9, got: 10");
    // Length is counted in bytes: seven characters of two bytes each are too long.
    let err = PhoneRegion::new("ééééééé".to_string(), 1).unwrap_err();
    assert_eq!(err, "phone length must be 7-9, got: 14");
}

#[test]
fn phone_region_keeps_its_fields() {
    let pr = PhoneRegion::new("123456789".to_string(), -5).unwrap();
    assert_eq!(pr.phone, "123456789");
    assert_eq!(pr.region_id, -5);
}

#[test]
fn test_generate_random_phone() {
    let phone = generate_random_phone();
    assert_eq!(phone.len(), 11);
    assert!(phone.starts_with('1'));
    let second_char = phone.chars().nth(1).unwrap();
    assert!(second_char >= '3' && second_char <= '9');
    assert!(phone.chars().all(|c| c.is_ascii_digit()));
}

#[test]
fn test_generate_random_phones_are_different() {
    let phone1 = generate_random_phone();
    let phone2 = generate_random_phone();
    assert_ne!(phone1, phone2);
}

#[test]
fn test_generate_realistic_phone() {
    let phone = generate_realistic_phone();
    assert_eq!(phone.len(), 11);
    assert!(phone.starts_with('1'));
    let prefix = &phone[0..3];
    assert!(CHINA_MOBILE_PREFIXES.contains(&prefix));
    assert!(phone.chars().all(|c| c.is_ascii_digit()));
}

#[test]
fn test_generate_realistic_phones_are_different() {
    let phone1 = generate_realistic_phone();
    let phone2 = generate_realistic_phone();
    assert_ne!(phone1, phone2);
}

#[test]
fn test_generate_batch_phones() {
    let mut phones = std::collections::HashSet::new();
    for _ in 0..1000 {
        let phone = generate_random_phone();
        phones.insert(phone);
    }
    assert!(phones.len() > 990, "Expected > 990 unique phones, got {}", phones.len());
}

#[test]
fn random_phone_region_is_a_valid_record() {
    for _ in 0..200 {
        let pr = random_phone_region();
        assert!(pr.is_valid_phone_length());
        assert!(pr.phone.chars().all(|c| c.is_ascii_digit()));
        assert!(pr.region_id >= 0 && pr.region_id < 1000);
    }
}

#[test]
fn realistic_phones_use_the_13_15_18_ranges() {
    for _ in 0..300 {
        let phone = generate_realistic_phone();
        assert!(phone.starts_with("13") || phone.starts_with("15") || phone.starts_with("18"), "{phone}");
    }
}
