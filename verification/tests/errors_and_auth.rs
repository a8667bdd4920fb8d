use archypix_app_back::api::auth::{check_user_password_and_status, check_user_status, confirmation_texts, signin_second_factor, SigninResponse};
use archypix_app_back::database::user::{AuthToken, Confirmation, ConfirmationAction, ConfirmationCheck, TOTPSecret, User, UserStatus};
use archypix_app_back::database::utils::{is_error_duplicate_key, DatabaseFailure};
use archypix_app_back::utils::auth::{
    get_auth_token_from_headers, get_id_from_headers, parse_decimal, strip_port, DeviceDescription, DeviceInfo, EngineDescription,
    OsDescription,
};
use archypix_app_back::utils::crypto::{code_of_random, random_code, random_token};
use archypix_app_back::utils::errors_catcher::{
    bad_request, err_transaction, internal_error, not_found, rolls_back, unauthorized, unprocessable_entity, ErrorResponder, ErrorType,
    ErrorTypeKind,
};
use archypix_app_back::utils::utils::{int_to_string, left_pad};

fn response(e: &ErrorResponder) -> (u16, ErrorTypeKind, String, bool) {
    let r = match e {
        ErrorResponder::BadRequest(r)
        | ErrorResponder::Unauthorized(r)
        | ErrorResponder::NotFound(r)
        | ErrorResponder::UnprocessableEntity(r)
        | ErrorResponder::InternalError(r) => r.clone(),
    };
    (e.status(), r.error_type, r.message, r.rollback)
}

fn user(status: UserStatus, password_hash: &str) -> User {
    User {
        id: 7,
        name: "Ada".to_string(),
        email: "ada@example.com".to_string(),
        password_hash: password_hash.to_string(),
        creation_date: 0,
        status,
        tfa_login: false,
        storage_count_ko: 0,
        storage_limit_ko: 1000,
    }
}

#[test]
fn every_error_has_its_status_and_message() {
    let cases = vec![
        (ErrorType::BadRequest, 400, "Bad request".to_string()),
        (ErrorType::Unauthorized, 401, "Unauthorized".to_string()),
        (ErrorType::NotFound("/x".to_string()), 404, "Not found: /x".to_string()),
        (ErrorType::UnprocessableEntity("bad".to_string()), 422, "bad".to_string()),
        (ErrorType::InternalError("boom".to_string()), 500, "Internal error: boom".to_string()),
        (ErrorType::InvalidInput("no".to_string()), 422, "no".to_string()),
        (ErrorType::UserNotFound, 401, "User not found".to_string()),
        (ErrorType::UserBanned, 401, "User is banned".to_string()),
        (ErrorType::UserUnconfirmed, 401, "User is not confirmed".to_string()),
        (ErrorType::InvalidEmailOrPassword, 401, "Invalid email or password".to_string()),
        (ErrorType::TFARequiredOverEmail, 401, "2FA required over email".to_string()),
        (ErrorType::TFARequired, 401, "2FA required".to_string()),
        (ErrorType::InvalidTOTPCode, 401, "Invalid TOTP code".to_string()),
        (ErrorType::EmailAlreadyExists, 401, "Email already exists".to_string()),
        (ErrorType::ConfirmationAlreadyUsed, 401, "Confirmation code/token already used".to_string()),
        (ErrorType::ConfirmationExpired, 401, "Confirmation code/token expired".to_string()),
        (ErrorType::ConfirmationTooManyAttempts, 401, "Too many attempts".to_string()),
        (ErrorType::ConfirmationNotFound, 401, "Invalid code/token".to_string()),
        (ErrorType::UserNotAdmin, 401, "User is not an admin".to_string()),
        (ErrorType::TagNotFound, 404, "Tag not found".to_string()),
        (ErrorType::PictureNotFound, 404, "Picture not found".to_string()),
        (ErrorType::ArrangementNotFound, 404, "Arrangement not found".to_string()),
        (ErrorType::GroupIsNotManual, 422, "Group is not manual".to_string()),
        (ErrorType::UnableToCreateThumbnail("x".to_string()), 500, "Unable to create thumbnail: x".to_string()),
        (ErrorType::UnableToCreateBlurhash("y".to_string()), 500, "Unable to create blurhash: y".to_string()),
        (ErrorType::DatabaseError("ctx".to_string(), "db".to_string()), 500, "Database error: ctx - db".to_string()),
    ];
    for (e, status, message) in cases {
        let kind = e.kind();
        assert_eq!(e.status(), status);
        let r = e.res_rollback();
        let (s, k, m, rollback) = response(&r);
        assert_eq!(s, status);
        assert_eq!(k, kind);
        assert_eq!(m, message);
        assert!(rollback);
    }
}

#[test]
fn rollback_follows_the_constructor() {
    let e = ErrorType::UserBanned.res_no_rollback();
    assert!(!e.do_rollback());
    let e = e.with_rollback(true);
    assert!(e.do_rollback());
    let r: Result<u8, ErrorResponder> = ErrorType::TagNotFound.res_err_rollback();
    assert!(rolls_back(&r));
    let r: Result<u8, ErrorResponder> = ErrorType::TagNotFound.res_err();
    assert!(!rolls_back(&r));
    let ok: Result<u8, ErrorResponder> = Ok(3);
    assert!(!rolls_back(&ok));
}

#[test]
fn catchers_answer_with_their_status() {
    assert_eq!(response(&bad_request()).0, 400);
    assert_eq!(response(&unauthorized()).0, 401);
    let nf = response(&not_found("/nowhere".to_string()));
    assert_eq!((nf.0, nf.2), (404, "Not found: /nowhere".to_string()));
    let ue = response(&unprocessable_entity());
    assert_eq!((ue.0, ue.2), (422, "Unprocessable entity".to_string()));
    let ie = response(&internal_error());
    assert_eq!((ie.0, ie.2), (500, "Internal error: Internal Error".to_string()));
}

#[test]
fn err_transaction_keeps_the_body_unless_the_database_fails() {
    let body: Result<i32, ErrorResponder> = Ok(5);
    assert_eq!(err_transaction(body, None), Ok(5));
    let body: Result<i32, ErrorResponder> = Ok(5);
    let r = err_transaction(body, Some("lost connection".to_string()));
    let (s, k, m, rollback) = response(&r.unwrap_err());
    assert_eq!((s, k, rollback), (500, ErrorTypeKind::DatabaseError, true));
    assert_eq!(m, "Database error: Diesel error - lost connection");
}

#[test]
fn user_id_header_reads_unsigned_32_bit_numbers() {
    assert_eq!(get_id_from_headers(Some("42")), Some(42));
    assert_eq!(get_id_from_headers(Some("+42")), Some(42));
    assert_eq!(get_id_from_headers(Some("4294967295")), Some(4294967295));
    assert_eq!(get_id_from_headers(Some("4294967296")), None);
    assert_eq!(get_id_from_headers(Some("-1")), None);
    assert_eq!(get_id_from_headers(Some("")), None);
    assert_eq!(get_id_from_headers(Some("12a")), None);
    assert_eq!(get_id_from_headers(None), None);
    assert_eq!(parse_decimal("300", 255), None);
    assert_eq!(parse_decimal("255", 255), Some(255));
}

#[test]
fn decimal_writing_reads_back() {
    for n in [0i64, 7, 10, 99, 100, 4096, 2147483647] {
        let text = int_to_string(n);
        assert_eq!(text, n.to_string());
        assert_eq!(parse_decimal(&text, u64::MAX), Some(n as u64));
    }
    assert_eq!(int_to_string(-305), "-305");
}

#[test]
fn auth_token_header_is_hexadecimal() {
    assert_eq!(get_auth_token_from_headers(Some("00ff10")), Some(vec![0, 255, 16]));
    assert_eq!(get_auth_token_from_headers(Some("ABcd")), Some(vec![0xab, 0xcd]));
    assert_eq!(get_auth_token_from_headers(Some("abc")), None);
    assert_eq!(get_auth_token_from_headers(Some("zz")), None);
    assert_eq!(get_auth_token_from_headers(None), None);
}

#[test]
fn signin_token_round_trips_through_the_header() {
    let token = vec![1u8, 2, 250, 0, 17];
    let answer = SigninResponse::new(user(UserStatus::Normal, ""), &token);
    assert_eq!(answer.auth_token, "0102fa0011");
    assert_eq!(get_auth_token_from_headers(Some(&answer.auth_token)), Some(token));
}

#[test]
fn ports_are_stripped_from_addresses() {
    assert_eq!(strip_port("192.168.1.2:8000".to_string()), "192.168.1.2");
    assert_eq!(strip_port("10.0.0.1".to_string()), "10.0.0.1");
    assert_eq!(strip_port("[fe80::1]:443".to_string()), "fe80::1");
    assert_eq!(strip_port("[::1]:8000".to_string()), "::1");
    assert_eq!(strip_port("::1".to_string()), "::1");
}

#[test]
fn device_info_describes_the_request() {
    let device = DeviceDescription { name: Some("iPhone".to_string()), brand: Some("Apple".to_string()), model: None };
    let os = OsDescription { name: Some("iOS".to_string()), major: Some("17".to_string()), minor: Some("2".to_string()), patch: None, patch_minor: None };
    let engine = EngineDescription { name: None, major: None, minor: None, patch: None };
    let info = DeviceInfo::from_request(&device, &os, &engine, Some("1.2.3.4:80".to_string()));
    assert_eq!(info.ip_address, Some("1.2.3.4".to_string()));
    assert_eq!(info.device_string, "Apple iPhone (iOS 17.2) ");
    let none = DeviceDescription { name: None, brand: None, model: None };
    let no_os = OsDescription { name: None, major: None, minor: None, patch: None, patch_minor: None };
    let unknown = DeviceInfo::from_request(&none, &no_os, &engine, None);
    assert_eq!(unknown.device_string, "Unknown");
    assert_eq!(unknown.ip_address, None);
}

#[test]
fn password_check_refuses_wrong_passwords_and_blocked_users() {
    let hash = pwhash::bcrypt::hash("secret").unwrap();
    let ok = check_user_password_and_status(Some(user(UserStatus::Normal, &hash)), "secret");
    assert_eq!(ok.unwrap().id, 7);
    let wrong = check_user_password_and_status(Some(user(UserStatus::Normal, &hash)), "guess").unwrap_err();
    assert_eq!(response(&wrong).1, ErrorTypeKind::InvalidEmailOrPassword);
    let missing = check_user_password_and_status(None, "secret").unwrap_err();
    assert_eq!(response(&missing).1, ErrorTypeKind::InvalidEmailOrPassword);
    let banned = check_user_password_and_status(Some(user(UserStatus::Banned, &hash)), "secret").unwrap_err();
    assert_eq!(response(&banned).1, ErrorTypeKind::UserBanned);
    let unconfirmed = check_user_password_and_status(Some(user(UserStatus::Unconfirmed, &hash)), "secret").unwrap_err();
    assert_eq!(response(&unconfirmed).1, ErrorTypeKind::UserUnconfirmed);
}

#[test]
fn logged_in_users_must_be_confirmed_and_not_banned() {
    let token = AuthToken { user_id: 7, token: vec![1], creation_date: 0, last_use_date: 0, device_string: None, ip_address: None };
    assert!(User::check_logged_in(Some((user(UserStatus::Normal, ""), token.clone()))).is_ok());
    let e = User::check_logged_in(None).unwrap_err();
    assert_eq!(response(&e).1, ErrorTypeKind::UserNotFound);
    let e = User::check_logged_in(Some((user(UserStatus::Banned, ""), token.clone()))).unwrap_err();
    assert_eq!(response(&e).1, ErrorTypeKind::UserBanned);
    let e = User::check_logged_in(Some((user(UserStatus::Unconfirmed, ""), token))).unwrap_err();
    assert_eq!(response(&e).1, ErrorTypeKind::UserUnconfirmed);
}

#[test]
fn auth_token_use_date_is_refreshed_after_ten_minutes() {
    let token = AuthToken { user_id: 7, token: vec![1], creation_date: 0, last_use_date: 1000, device_string: None, ip_address: None };
    assert!(!token.update_last_use_date(1000 + 600));
    assert!(token.update_last_use_date(1000 + 601));
}

#[test]
fn signing_up_twice_with_one_email_is_refused() {
    let existing = user(UserStatus::Normal, "");
    let e = User::create_user(Some(&existing), "Bob".to_string(), "pw").unwrap_err();
    assert_eq!(response(&e).1, ErrorTypeKind::EmailAlreadyExists);
    let fresh = User::create_user(None, "Bob".to_string(), "pw").unwrap();
    assert_eq!((fresh.reused_id, fresh.mark_signup_confirmations_used, fresh.name.as_str()), (None, false, "Bob"));
    assert!(pwhash::bcrypt::verify("pw", &fresh.password_hash));
    assert!(!pwhash::bcrypt::verify("other", &fresh.password_hash));
    let unconfirmed = user(UserStatus::Unconfirmed, "");
    let reused = User::create_user(Some(&unconfirmed), "Bob".to_string(), "pw").unwrap();
    assert_eq!((reused.reused_id, reused.mark_signup_confirmations_used), (Some(7), true));
    assert!(check_user_password_and_status(Some(user(UserStatus::Normal, &reused.password_hash)), "pw").is_ok());
}

fn confirmation(used: bool, date: i64, code_trials: i16) -> Confirmation {
    Confirmation {
        user_id: 7,
        action: ConfirmationAction::Signup,
        used,
        date,
        token: vec![9],
        code_token: vec![8],
        code: 1234,
        code_trials,
        redirect_url: Some("/home".to_string()),
        device_string: None,
        ip_address: None,
    }
}

fn refusal(c: ConfirmationCheck) -> ErrorTypeKind {
    match c {
        ConfirmationCheck::Refuse(e) => response(&e).1,
        ConfirmationCheck::WrongCode(_, e) => response(&e).1,
        ConfirmationCheck::Accept(_) => panic!("accepted"),
    }
}

#[test]
fn confirmation_codes_are_used_once_and_expire() {
    let now = 100_000;
    match Confirmation::check_code(Some(confirmation(false, now - 60, 0)), 1234, now, 10) {
        ConfirmationCheck::Accept(url) => assert_eq!(url, Some("/home".to_string())),
        _ => panic!("refused"),
    }
    assert_eq!(refusal(Confirmation::check_code(Some(confirmation(true, now, 0)), 1234, now, 10)), ErrorTypeKind::ConfirmationAlreadyUsed);
    assert_eq!(refusal(Confirmation::check_code(Some(confirmation(false, now - 601, 0)), 1234, now, 10)), ErrorTypeKind::ConfirmationExpired);
    assert_eq!(refusal(Confirmation::check_code(Some(confirmation(false, now, 3)), 1234, now, 10)), ErrorTypeKind::ConfirmationTooManyAttempts);
    assert_eq!(refusal(Confirmation::check_code(None, 1234, now, 10)), ErrorTypeKind::ConfirmationNotFound);
    match Confirmation::check_code(Some(confirmation(false, now, 1)), 1111, now, 10) {
        ConfirmationCheck::WrongCode(trials, e) => {
            assert_eq!(trials, 2);
            assert_eq!(response(&e).1, ErrorTypeKind::ConfirmationNotFound);
        }
        _ => panic!("a wrong code was not counted"),
    }
    match Confirmation::check_token(Some(confirmation(false, now, 3)), now, 10) {
        ConfirmationCheck::Accept(_) => {}
        _ => panic!("refused"),
    }
    assert_eq!(refusal(Confirmation::check_token(Some(confirmation(true, now, 0)), now, 10)), ErrorTypeKind::ConfirmationAlreadyUsed);
    assert_eq!(refusal(Confirmation::check_code(Some(confirmation(true, now + 600, 0)), 1234, now, -10)), ErrorTypeKind::ConfirmationAlreadyUsed);
    assert_eq!(refusal(Confirmation::check_token(Some(confirmation(false, now, 0)), now, -10)), ErrorTypeKind::ConfirmationExpired);
    match Confirmation::check_token(Some(confirmation(false, now + 600, 0)), now, -10) {
        ConfirmationCheck::Accept(_) => {}
        _ => panic!("refused"),
    }
}

#[test]
fn totp_needs_a_long_enough_secret() {
    let short = TOTPSecret { user_id: 7, creation_date: 0, secret: vec![1; 8] };
    assert_eq!(response(&short.to_totp().unwrap_err()).1, ErrorTypeKind::InternalError);
    let long = TOTPSecret { user_id: 7, creation_date: 0, secret: vec![1; 20] };
    let settings = long.to_totp().unwrap();
    assert_eq!((settings.digits, settings.skew, settings.step), (6, 1, 30));
    assert_eq!(settings.secret, vec![1; 20]);
    assert_eq!(TOTPSecret::check_user_totp(&vec![], "123456", Some(1000)).unwrap(), false);
    assert!(TOTPSecret::check_user_totp(&vec![long.clone()], "000000", Some(1000)).is_ok());
}

#[test]
fn totp_codes_are_checked_against_each_secret_in_order() {
    let rfc = TOTPSecret { user_id: 7, creation_date: 0, secret: b"12345678901234567890".to_vec() };
    let other = TOTPSecret { user_id: 7, creation_date: 0, secret: vec![9; 20] };
    let short = TOTPSecret { user_id: 7, creation_date: 0, secret: vec![1; 8] };
    assert_eq!(TOTPSecret::check_user_totp(&vec![rfc.clone()], "287082", Some(59)).unwrap(), true);
    assert_eq!(TOTPSecret::check_user_totp(&vec![other.clone(), rfc.clone()], "287082", Some(59)).unwrap(), true);
    assert_eq!(TOTPSecret::check_user_totp(&vec![rfc.clone()], "287082", Some(59 + 3600)).unwrap(), false);
    assert_eq!(TOTPSecret::check_user_totp(&vec![rfc.clone(), short.clone()], "287082", Some(59)).unwrap(), true);
    let e = TOTPSecret::check_user_totp(&vec![other.clone(), short], "287082", Some(59)).unwrap_err();
    assert_eq!(response(&e).0, 500);
    let e = TOTPSecret::check_user_totp(&vec![rfc.clone()], "287082", None).unwrap_err();
    assert_eq!(response(&e).0, 500);
    let tfa = User { tfa_login: true, ..user(UserStatus::Normal, "") };
    assert!(signin_second_factor(&tfa, &Some("287082".to_string()), &vec![rfc.clone()], Some(59)).is_ok());
    let e = signin_second_factor(&tfa, &Some("287083".to_string()), &vec![rfc], Some(59)).unwrap_err();
    assert_eq!(response(&e).1, ErrorTypeKind::InvalidTOTPCode);
}

#[test]
fn random_values_have_the_requested_size() {
    assert_eq!(random_token(32).unwrap().len(), 32);
    for _ in 0..20 {
        assert!(random_code(4).unwrap() < 10_000);
    }
}

#[test]
fn confirmation_email_texts() {
    let t = confirmation_texts("https://app", "signup", 12, &vec![0xab, 1], 42, &vec![255]);
    assert_eq!(t.url, "https://app/signup?id=12&token=ab01");
    assert_eq!(t.code, "0042");
    assert_eq!(t.code_token, "ff");
    let t = confirmation_texts("h", "signin", 3, &vec![], 9999, &vec![]);
    assert_eq!(t.code, "9999");
    assert_eq!(left_pad("7", '0', 3), "007");
}

#[test]
fn duplicate_keys_are_read_from_the_message() {
    let e = DatabaseFailure {
        unique_violation: true,
        message: "Duplicate entry '3-signup-\u{0}' for key 'confirmations.PRIMARY'".to_string(),
    };
    assert!(is_error_duplicate_key(&e, "confirmations.PRIMARY"));
    assert!(!is_error_duplicate_key(&e, "users.email"));
    let other = DatabaseFailure { unique_violation: false, message: e.message.clone() };
    assert!(!is_error_duplicate_key(&other, "confirmations.PRIMARY"));
    let short = DatabaseFailure { unique_violation: true, message: "Duplicate entry 'x'".to_string() };
    assert!(!is_error_duplicate_key(&short, "x"));
}

#[test]
fn sign_in_answers_follow_the_password_and_the_status() {
    assert_eq!(check_user_status(Some(user(UserStatus::Admin, "")), true).unwrap().id, 7);
    assert_eq!(response(&check_user_status(Some(user(UserStatus::Admin, "")), false).unwrap_err()).1, ErrorTypeKind::InvalidEmailOrPassword);
    assert_eq!(response(&check_user_status(None, true).unwrap_err()).1, ErrorTypeKind::InvalidEmailOrPassword);
    assert_eq!(response(&check_user_status(Some(user(UserStatus::Banned, "")), true).unwrap_err()).1, ErrorTypeKind::UserBanned);
    let weird_hash = check_user_password_and_status(Some(user(UserStatus::Normal, "$2y$05$\u{1}bad")), "x").unwrap_err();
    assert_eq!(response(&weird_hash).1, ErrorTypeKind::InvalidEmailOrPassword);
}

#[test]
fn codes_keep_the_last_digits_of_the_random_number() {
    assert_eq!(code_of_random(123456789, 4), 6789);
    assert_eq!(code_of_random(42, 4), 42);
    assert_eq!(code_of_random(u32::MAX, 9), 294967295);
    assert_eq!(code_of_random(7, 0), 0);
}
