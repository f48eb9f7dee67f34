use content_engine::account::{
    change_password, check_password, digest_matches, registration_password, signs_in_through_google,
    AccountError,
};
use content_engine::session::{claims_at, Claims, SESSION_SECONDS};

const DIGEST_OF_HELLO: &str = "2cf24dba5fb0a30e26e83b2ac5b9e29e1b161e5c1fa7425e73043362938b9824";
const DIGEST_OF_NOTHING: &str = "e3b0c44298fc1c149afbf4c8996fb92427ae41e4649b934ca495991b7852b855";

#[test]
fn an_account_without_google_needs_a_password() {
    assert_eq!(registration_password("email", None), Err(AccountError::PasswordRequired));
    assert_eq!(registration_password("", None), Err(AccountError::PasswordRequired));
    assert_eq!(registration_password("google", None), Err(AccountError::PasswordRequired));
}

#[test]
fn a_google_account_may_come_without_a_password() {
    assert_eq!(registration_password("Google", None), Ok(None));
}

#[test]
fn a_password_is_stored_as_its_digest() {
    assert_eq!(
        registration_password("email", Some("hello".to_string())),
        Ok(Some(DIGEST_OF_HELLO.to_string()))
    );
    assert_eq!(
        registration_password("Google", Some("hello".to_string())),
        Ok(Some(DIGEST_OF_HELLO.to_string()))
    );
    assert_eq!(
        registration_password("email", Some(String::new())),
        Ok(Some(DIGEST_OF_NOTHING.to_string()))
    );
}

#[test]
fn the_right_password_is_accepted() {
    assert_eq!(check_password(DIGEST_OF_HELLO, "hello"), Ok(()));
    assert_eq!(check_password(DIGEST_OF_NOTHING, ""), Ok(()));
}

#[test]
fn a_wrong_password_is_refused() {
    assert_eq!(check_password(DIGEST_OF_HELLO, "Hello"), Err(AccountError::IncorrectPassword));
    assert_eq!(check_password("hello", "hello"), Err(AccountError::IncorrectPassword));
    assert_eq!(check_password("", "hello"), Err(AccountError::IncorrectPassword));
    assert_eq!(
        check_password(&DIGEST_OF_HELLO.to_uppercase(), "hello"),
        Err(AccountError::IncorrectPassword)
    );
}

#[test]
fn changing_a_password_needs_the_old_one() {
    assert_eq!(change_password(DIGEST_OF_HELLO, "hello", ""), Ok(DIGEST_OF_NOTHING.to_string()));
    assert_eq!(
        change_password(DIGEST_OF_HELLO, "wrong", ""),
        Err(AccountError::IncorrectPassword)
    );
}

#[test]
fn digests_are_compared_as_texts() {
    assert!(digest_matches("abc", "abc"));
    assert!(!digest_matches("abc", "ABC"));
    assert!(!digest_matches("abc", ""));
}

#[test]
fn google_is_written_with_a_capital() {
    assert!(signs_in_through_google("Google"));
    assert!(!signs_in_through_google("google"));
    assert!(!signs_in_through_google("email"));
}

#[test]
fn account_refusals_are_reported_under_their_status() {
    assert_eq!(AccountError::PasswordRequired.status_code(), 400);
    assert_eq!(AccountError::IncorrectPassword.status_code(), 401);
}

#[test]
fn a_session_lasts_an_hour() {
    assert_eq!(SESSION_SECONDS, 3600);
    assert_eq!(
        claims_at("507f1f77bcf86cd799439011", 1_700_000_000),
        Some(Claims { sub: "507f1f77bcf86cd799439011".to_string(), iat: 1_700_000_000, exp: 1_700_003_600 })
    );
    assert_eq!(claims_at("u", 0), Some(Claims { sub: "u".to_string(), iat: 0, exp: 3600 }));
}

#[test]
fn no_session_starts_before_1970_or_at_the_end_of_time() {
    assert_eq!(claims_at("u", -1), None);
    assert_eq!(claims_at("u", i64::MIN), None);
    if usize::MAX as u128 >= i64::MAX as u128 + 3600 {
        let now = i64::MAX;
        assert_eq!(
            claims_at("u", now),
            Some(Claims { sub: "u".to_string(), iat: now as usize, exp: now as usize + 3600 })
        );
    } else if (usize::MAX as u128) < i64::MAX as u128 {
        assert_eq!(claims_at("u", usize::MAX as i64 - 3599), None);
        assert!(claims_at("u", usize::MAX as i64 - 3600).is_some());
    }
}
