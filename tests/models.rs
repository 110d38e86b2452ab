use chatik::models::{admin_flag, hash_password, hash_password_with_salt, ApiError, UserChat};

#[test]
fn status_codes_and_messages() {
    let cases = [
        (ApiError::InternalServerError, 500, "Internal Server Error"),
        (ApiError::BadRequest, 400, "Bad Request"),
        (ApiError::Unauthorized, 401, "Unauthorized"),
        (ApiError::NotFound, 404, "Not Found"),
        (ApiError::Conflict, 409, "Conflict"),
    ];
    for (e, code, text) in cases {
        assert_eq!(e.status_code(), code);
        assert_eq!(e.message(), text);
    }
}

#[test]
fn missing_admin_flag_is_not_admin() {
    assert!(!admin_flag(None));
    assert!(!admin_flag(Some(false)));
    assert!(admin_flag(Some(true)));
    let m = UserChat { user_id: 1, chat_id: 2, is_admin: None };
    assert!(!m.is_admin_member());
}

#[test]
fn no_password_stays_none() {
    assert!(matches!(hash_password(&None), Ok(None)));
}

#[test]
fn password_is_hashed_not_kept() {
    let h = hash_password(&Some("secret".to_string())).unwrap().unwrap();
    assert_ne!(h, "secret");
    assert!(h.starts_with("$2b$11$"));
    assert!(bcrypt::verify("secret", &h).unwrap());
}


#[test]
fn salted_hash_is_bcrypts_hash() {
    let salt = [5u8; 16];
    let h = hash_password_with_salt(&Some("secret".to_string()), &salt).unwrap();
    let expected = bcrypt::hash_with_salt("secret", 11, salt)
        .unwrap()
        .format_for_version(bcrypt::Version::TwoB);
    assert_eq!(h, expected);
    assert!(bcrypt::verify("secret", &h).unwrap());
    assert_eq!(hash_password_with_salt(&None, &salt), None);
}
