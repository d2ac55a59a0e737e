use chat_relay::auth::{
    login_step, LoginAction, LoginEvent, LoginRefusal, LoginStage,
    check_credentials, new_session_id, session_from_cookies, LoginRequest, UserResponse, User, prepare_login, session_cookie, session_token,
    CredentialError,
};

fn form(username: &str, password: &str) -> LoginRequest {
    LoginRequest { username: username.to_string(), password: password.to_string() }
}

#[test]
fn user_response_carries_the_name() {
    let u = User {
        id: 7,
        username: "carol".to_string(),
        session_id: "carol-1".to_string(),
        created_at: "2024-01-01 00:00:00".to_string(),
    };
    assert_eq!(UserResponse::for_user(&u).username, "carol");
}

#[test]
fn empty_username_is_refused() {
    assert_eq!(check_credentials("", "secret1"), Err(CredentialError::EmptyUsername));
    assert_eq!(prepare_login(&form("   ", "secret1")).err(), Some(CredentialError::EmptyUsername));
}

#[test]
fn long_username_is_refused() {
    assert_eq!(
        check_credentials("abcdefghijklmnopqrstu", "secret1"),
        Err(CredentialError::UsernameTooLong)
    );
    assert_eq!(check_credentials("abcdefghijklmnopqrst", "secret1"), Ok(()));
}

#[test]
fn empty_and_short_passwords_are_refused() {
    assert_eq!(check_credentials("alice", ""), Err(CredentialError::EmptyPassword));
    assert_eq!(check_credentials("alice", "12345"), Err(CredentialError::PasswordTooShort));
    assert_eq!(check_credentials("alice", "123456"), Ok(()));
    assert_eq!(prepare_login(&form("alice", "  12345  ")).err(), Some(CredentialError::PasswordTooShort));
}

#[test]
fn refusal_messages() {
    assert_eq!(CredentialError::EmptyUsername.message(), "Username cannot be empty");
    assert_eq!(CredentialError::UsernameTooLong.message(), "Username too long");
    assert_eq!(CredentialError::EmptyPassword.message(), "Password cannot be empty");
    assert_eq!(
        CredentialError::PasswordTooShort.message(),
        "Password too short (min 6 chars)"
    );
}

#[test]
fn login_trims_and_hashes() {
    let c = match prepare_login(&form("  alice ", " secret1 ")) {
        Ok(c) => c,
        Err(e) => panic!("refused: {:?}", e),
    };
    assert_eq!(c.username, "alice");
    assert_eq!(
        c.password_hash,
        "5b11618c2e44027877d0cd0921ed166b9f176f50587fc91e7534dd2946db77d6"
    );
}

#[test]
fn session_identifiers_and_cookie() {
    assert_eq!(session_token("bob", "n1"), "bob-n1");
    let a = new_session_id("bob");
    let b = new_session_id("bob");
    assert!(a.starts_with("bob-"));
    let nonce: Vec<char> = a["bob-".len()..].chars().collect();
    assert_eq!(nonce.len(), 36);
    for (i, c) in nonce.iter().enumerate() {
        if i == 8 || i == 13 || i == 18 || i == 23 {
            assert_eq!(*c, '-');
        } else {
            assert!(c.is_ascii_digit() || ('a'..='f').contains(c));
        }
    }
    assert_eq!(nonce[14], '4');
    assert_ne!(a, b);
    assert_eq!(
        session_cookie("bob-n1"),
        "session_id=bob-n1; Path=/; Max-Age=604800; SameSite=Strict"
    );
}

#[test]
fn session_found_among_other_cookies() {
    assert_eq!(
        session_from_cookies("theme=dark;  session_id=bob-n1 ; lang=en"),
        Some("bob-n1".to_string())
    );
    assert_eq!(session_from_cookies("session_id=a1"), Some("a1".to_string()));
}

#[test]
fn first_session_entry_wins() {
    assert_eq!(
        session_from_cookies("session_id=first; session_id=second"),
        Some("first".to_string())
    );
}

#[test]
fn no_session_cookie() {
    assert_eq!(session_from_cookies(""), None);
    assert_eq!(session_from_cookies("theme=dark; lang=en"), None);
    assert_eq!(session_from_cookies("xsession_id=1"), None);
}

#[test]
fn existing_user_with_right_password_signs_in() {
    assert_eq!(
        login_step(LoginStage::LookUp, LoginEvent::Found),
        LoginAction::Go(LoginStage::CheckPassword)
    );
    assert_eq!(
        login_step(LoginStage::CheckPassword, LoginEvent::Matched),
        LoginAction::Go(LoginStage::StoreSession)
    );
    assert_eq!(login_step(LoginStage::StoreSession, LoginEvent::Stored), LoginAction::SignIn);
}

#[test]
fn new_user_is_registered() {
    assert_eq!(
        login_step(LoginStage::LookUp, LoginEvent::Missing),
        LoginAction::Go(LoginStage::Register)
    );
    assert_eq!(login_step(LoginStage::Register, LoginEvent::Stored), LoginAction::SignIn);
}

#[test]
fn login_refusals_and_their_replies() {
    let wrong = login_step(LoginStage::CheckPassword, LoginEvent::Mismatched);
    assert_eq!(wrong, LoginAction::Refuse(LoginRefusal::InvalidPassword));
    assert_eq!(LoginRefusal::InvalidPassword.status(), 401);
    assert_eq!(LoginRefusal::InvalidPassword.message(), "Invalid password");
    assert_eq!(
        login_step(LoginStage::LookUp, LoginEvent::Failed),
        LoginAction::Refuse(LoginRefusal::DatabaseError)
    );
    assert_eq!(
        login_step(LoginStage::StoreSession, LoginEvent::Failed),
        LoginAction::Refuse(LoginRefusal::SessionUpdateFailed)
    );
    assert_eq!(
        login_step(LoginStage::Register, LoginEvent::Failed),
        LoginAction::Refuse(LoginRefusal::RegistrationFailed)
    );
    assert_eq!(LoginRefusal::DatabaseError.status(), 500);
    assert_eq!(LoginRefusal::DatabaseError.message(), "Database error");
    assert_eq!(LoginRefusal::SessionUpdateFailed.message(), "Failed to update session");
    assert_eq!(LoginRefusal::RegistrationFailed.message(), "Failed to register user");
}
