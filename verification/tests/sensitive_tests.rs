use clipkeep::sensitive::{is_credit_card, is_phone, is_sensitive, is_ssn};

#[test]
fn test_valid_credit_cards() {
    assert!(is_credit_card("4532015112830366"));
    assert!(is_credit_card("5425233430109903"));
    assert!(is_credit_card("374245455400126"));
}

#[test]
fn test_invalid_credit_cards() {
    assert!(!is_credit_card("1234567890123456"));
    assert!(!is_credit_card("1234"));
    assert!(!is_credit_card("12345678901234567890"));
}

#[test]
fn test_ssn_detection() {
    assert!(is_ssn("123-45-6789"));
    assert!(is_ssn("123456789"));
    assert!(!is_ssn("12-34-567890"));
}

#[test]
fn test_phone_detection() {
    assert!(is_phone("555-123-4567"));
    assert!(is_phone("(555) 123-4567"));
    assert!(!is_phone("5551234"));
}

#[test]
fn test_is_sensitive() {
    assert!(is_sensitive("4532015112830366"));
    assert!(is_sensitive("SSN: 123-45-6789"));
    assert!(is_sensitive("Call me at 555-123-4567"));
    assert!(!is_sensitive("Just regular text"));
}

#[test]
fn test_false_positives() {
    // a bare nine-digit run is flagged even if it is no social security
    // number: over-inclusion is the accepted failure direction
    assert!(is_ssn("123456789"));
}

#[test]
fn test_luhn_last_digit_altered() {
    // valid checksum, then the last digit changed: 14 digits either way,
    // so only the checksum decides
    assert!(is_credit_card("4532015112830366"));
    assert!(!is_credit_card("4532015112830367"));
}

#[test]
fn test_credit_card_embedded_in_prose() {
    assert!(is_sensitive("my card is 4532 0151 1283 0366, please charge it"));
}

#[test]
fn test_phone_paren_no_space() {
    assert!(is_phone("(555)123-4567"));
}
