use star_haven_platform::errors::UsernameValidationError;
use star_haven_platform::username::{check_username_validity, normalize_username};

#[test]
fn validate_too_short() {
    assert_eq!(check_username_validity("ab"), Err(UsernameValidationError::TooShort));
}

#[test]
fn validate_banned() {
    assert_eq!(check_username_validity("admin"), Err(UsernameValidationError::Banned));
}

#[test]
fn validate_banned_checks_normalized_form() {
    // the reserved-name rule looks at the normalized form, so case and
    // surrounding whitespace do not evade it
    assert_eq!(check_username_validity(" Admin "), Err(UsernameValidationError::Banned));
    assert_eq!(check_username_validity("STAR-HAVEN"), Err(UsernameValidationError::Banned));
}

#[test]
fn validate_bad_start() {
    assert_eq!(check_username_validity("-abc"), Err(UsernameValidationError::InvalidStartOrEnd));
}

#[test]
fn validate_bad_characters() {
    assert_eq!(check_username_validity("ab cd"), Err(UsernameValidationError::InvalidCharacters));
}

#[test]
fn validate_ok() {
    assert_eq!(check_username_validity("abcd"), Ok(()));
}

#[test]
fn validate_too_long() {
    assert_eq!(
        check_username_validity("abcdefghijklmnopqrstu"),
        Err(UsernameValidationError::TooLong)
    );
}

#[test]
fn validate_length_counts_bytes() {
    // two characters but three bytes: still too short
    assert_eq!(check_username_validity("\u{e9}a"), Err(UsernameValidationError::TooShort));
    // four bytes in two characters pass the length rule and fail on the
    // non-alphanumeric first character instead
    assert_eq!(
        check_username_validity("\u{e9}\u{e9}"),
        Err(UsernameValidationError::InvalidStartOrEnd)
    );
    // twelve characters, twenty-two bytes: too long
    assert_eq!(
        check_username_validity("a\u{e9}\u{e9}\u{e9}\u{e9}\u{e9}\u{e9}\u{e9}\u{e9}\u{e9}\u{e9}b"),
        Err(UsernameValidationError::TooLong)
    );
}

#[test]
fn validate_hyphen_allowed_inside() {
    assert_eq!(check_username_validity("ab-cd"), Ok(()));
}

#[test]
fn normalize_folds_case_whitespace_and_confusables() {
    assert_eq!(normalize_username("  User-1  "), "user_l");
    assert_eq!(normalize_username("ALICE"), "alice");
    assert_eq!(normalize_username("a-b-c"), "a_b_c");
    assert_eq!(normalize_username("l1l1"), "llll");
    assert_eq!(normalize_username(""), "");
}

#[test]
fn normalize_trims_unicode_whitespace() {
    // a vertical tab, a no-break space, an em space and an ideographic
    // space are all in the Unicode White_Space set and are trimmed
    assert_eq!(normalize_username("\u{000b}abcd"), "abcd");
    assert_eq!(normalize_username("\u{00a0}\u{2003}User-1\u{3000}"), "user_l");
    // so a padded reserved name is still caught by the reserved-name rule
    assert_eq!(check_username_validity(" admin\u{00a0}"), Err(UsernameValidationError::Banned));
}

#[test]
fn normalize_is_idempotent_on_samples() {
    for u in ["  User-1  ", "ALICE", "a-b-c", "l1l1", "", "  ", "x Y z", "\u{00a0}ab\u{000b}"] {
        let once = normalize_username(u);
        let twice = normalize_username(&once);
        assert_eq!(once, twice);
    }
}

#[test]
fn error_messages_match() {
    assert_eq!(
        UsernameValidationError::TooShort.message(),
        "too short, must be at least 4 characters"
    );
    assert_eq!(UsernameValidationError::Banned.message(), "this username is not allowed");
}
