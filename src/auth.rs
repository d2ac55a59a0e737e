use sha2::{Digest, Sha256};
use vstd::prelude::*;
use vstd::string::StringExecFns;
use vstd::utf8::encode_utf8;

verus! {

/// What `str::trim` returns for a string: it depends on the characters alone.
pub uninterp spec fn trim_of(s: Seq<char>) -> Seq<char>;

/// The lower-case hex SHA-256 digest of a string's UTF-8 bytes.
pub uninterp spec fn sha256_hex_of(s: Seq<char>) -> Seq<char>;

/// Relies on `str::trim`: the slice without leading and trailing whitespace.
#[verifier::external_body]
fn trimmed(s: &str) -> (r: &str)
    ensures
        r@ == trim_of(s@),
{
    s.trim()
}

/// Relies on sha2's `Sha256::digest` over the UTF-8 bytes of `password`,
/// written out with `{:x}` as lower-case hex.
#[verifier::external_body]
fn hash_password(password: &str) -> (r: String)
    ensures
        r@ == sha256_hex_of(password@),
{
    format!("{:x}", Sha256::digest(password.as_bytes()))
}

/// A lower-case hexadecimal digit.
pub open spec fn is_lower_hex_digit(c: char) -> bool {
    ('0' <= c && c <= '9') || ('a' <= c && c <= 'f')
}

/// The text of a version 4 UUID: 36 characters, dashes at positions 8, 13, 18
/// and 23, lower-case hex digits elsewhere, and the version digit `4` at
/// position 14.
pub open spec fn is_uuid_v4_text(s: Seq<char>) -> bool {
    &&& s.len() == 36
    &&& forall|i: int|
        0 <= i < 36 ==> if i == 8 || i == 13 || i == 18 || i == 23 {
            s[i] == '-'
        } else {
            is_lower_hex_digit(#[trigger] s[i])
        }
    &&& s[14] == '4'
}

/// Relies on uuid's `Uuid::new_v4`, written out with `to_string` (the
/// hyphenated lower-case form). The value is random; only its form is
/// promised.
#[verifier::external_body]
fn fresh_nonce() -> (r: String)
    ensures
        is_uuid_v4_text(r@),
{
    uuid::Uuid::new_v4().to_string()
}

/// The longest accepted user name, in UTF-8 bytes.
pub const MAX_USERNAME_BYTES: usize = 20;

/// The shortest accepted password, in UTF-8 bytes.
pub const MIN_PASSWORD_BYTES: usize = 6;

/// Why a login form was refused.
#[derive(PartialEq, Eq, Structural, Clone, Copy, Debug)]
pub enum CredentialError {
    EmptyUsername,
    UsernameTooLong,
    EmptyPassword,
    PasswordTooShort,
}

impl CredentialError {
    /// The text shown to the user.
    pub fn message(&self) -> (m: &'static str)
        ensures
            m@ == credential_message(*self),
    {
        proof {
            reveal_strlit("Username cannot be empty");
            reveal_strlit("Username too long");
            reveal_strlit("Password cannot be empty");
            reveal_strlit("Password too short (min 6 chars)");
        }
        match self {
            CredentialError::EmptyUsername => "Username cannot be empty",
            CredentialError::UsernameTooLong => "Username too long",
            CredentialError::EmptyPassword => "Password cannot be empty",
            CredentialError::PasswordTooShort => "Password too short (min 6 chars)",
        }
    }
}

/// The text shown for each refusal.
pub open spec fn credential_message(e: CredentialError) -> Seq<char> {
    match e {
        CredentialError::EmptyUsername => "Username cannot be empty"@,
        CredentialError::UsernameTooLong => "Username too long"@,
        CredentialError::EmptyPassword => "Password cannot be empty"@,
        CredentialError::PasswordTooShort => "Password too short (min 6 chars)"@,
    }
}

/// The rule on an already trimmed user name and password, checked in this
/// order: the name is not empty and at most 20 bytes long, the password is
/// not empty and at least 6 bytes long.
pub open spec fn credential_verdict(username: Seq<char>, password: Seq<char>) -> Result<
    (),
    CredentialError,
> {
    if username.len() == 0 {
        Err(CredentialError::EmptyUsername)
    } else if encode_utf8(username).len() > MAX_USERNAME_BYTES {
        Err(CredentialError::UsernameTooLong)
    } else if password.len() == 0 {
        Err(CredentialError::EmptyPassword)
    } else if encode_utf8(password).len() < MIN_PASSWORD_BYTES {
        Err(CredentialError::PasswordTooShort)
    } else {
        Ok(())
    }
}

/// Checks an already trimmed user name and password.
pub fn check_credentials(username: &str, password: &str) -> (r: Result<(), CredentialError>)
    ensures
        r == credential_verdict(username@, password@),
{
    if username.is_empty() {
        Err(CredentialError::EmptyUsername)
    } else if username.as_bytes().len() > MAX_USERNAME_BYTES {
        Err(CredentialError::UsernameTooLong)
    } else if password.is_empty() {
        Err(CredentialError::EmptyPassword)
    } else if password.as_bytes().len() < MIN_PASSWORD_BYTES {
        Err(CredentialError::PasswordTooShort)
    } else {
        Ok(())
    }
}

/// The fields of a submitted login form, as typed.
pub struct LoginRequest {
    pub username: String,
    pub password: String,
}

/// What the current-user query answers.
pub struct UserResponse {
    pub username: String,
}

impl UserResponse {
    /// The answer for `user`.
    pub fn for_user(user: &User) -> (r: UserResponse)
        ensures
            r.username@ == user.username@,
    {
        UserResponse { username: user.username.clone() }
    }
}

/// A row of the user table.
#[derive(Debug, Clone)]
pub struct User {
    pub id: i64,
    pub username: String,
    pub session_id: String,
    pub created_at: String,
}

/// A user name and password hash that passed the rule.
pub struct Credentials {
    pub username: String,
    pub password_hash: String,
}

/// Trims both fields of a login form, checks them, and hashes the password.
pub fn prepare_login(form: &LoginRequest) -> (r: Result<Credentials, CredentialError>)
    ensures
        match r {
            Ok(c) => credential_verdict(trim_of(form.username@), trim_of(form.password@)) == Ok::<
                (),
                CredentialError,
            >(()) && c.username@ == trim_of(form.username@) && c.password_hash@ == sha256_hex_of(
                trim_of(form.password@),
            ),
            Err(e) => credential_verdict(trim_of(form.username@), trim_of(form.password@)) == Err::<
                (),
                CredentialError,
            >(e),
        },
{
    let user = trimmed(form.username.as_str());
    let pass = trimmed(form.password.as_str());
    match check_credentials(user, pass) {
        Err(e) => Err(e),
        Ok(()) => Ok(Credentials { username: user.to_owned(), password_hash: hash_password(pass) }),
    }
}

/// A session identifier: the user name, a dash, and `nonce`.
pub fn session_token(username: &str, nonce: &str) -> (r: String)
    ensures
        r@ == username@ + "-"@ + nonce@,
{
    let mut r = username.to_owned();
    r.append("-");
    r.append(nonce);
    r
}

/// A fresh session identifier for `username`: the name, a dash, and the
/// text of a random version 4 UUID.
pub fn new_session_id(username: &str) -> (r: String)
    ensures
        exists|nonce: Seq<char>| is_uuid_v4_text(nonce) && r@ == username@ + "-"@ + nonce,
{
    let nonce = fresh_nonce();
    session_token(username, nonce.as_str())
}

/// The `Set-Cookie` value that hands `session_id` to the browser for a week.
pub fn session_cookie(session_id: &str) -> (r: String)
    ensures
        r@ == "session_id="@ + session_id@ + "; Path=/; Max-Age=604800; SameSite=Strict"@,
{
    let mut r = "session_id=".to_owned();
    r.append(session_id);
    r.append("; Path=/; Max-Age=604800; SameSite=Strict");
    r
}

/// Relies on `str::split_once` with a `char` pattern: the text before and
/// after the first `delim`, or `None` when there is none.
#[verifier::external_body]
fn split_once_at(s: &str, delim: char) -> (r: Option<(&str, &str)>)
    ensures
        match r {
            Some((a, b)) => s@ == a@ + seq![delim] + b@ && free_of(a@, delim),
            None => free_of(s@, delim),
        },
{
    s.split_once(delim)
}

/// Relies on `str::strip_prefix`: what follows `prefix` when `s` starts with
/// it, or `None`.
#[verifier::external_body]
fn strip_prefix<'a>(s: &'a str, prefix: &str) -> (r: Option<&'a str>)
    ensures
        match r {
            Some(rest) => s@.len() >= prefix@.len() && s@.take(prefix@.len() as int) == prefix@
                && rest@ == s@.skip(prefix@.len() as int),
            None => !(s@.len() >= prefix@.len() && s@.take(prefix@.len() as int) == prefix@),
        },
{
    s.strip_prefix(prefix)
}

/// `s` does not hold `c`.
pub open spec fn free_of(s: Seq<char>, c: char) -> bool {
    forall|i: int| 0 <= i < s.len() ==> s[i] != c
}

/// The value of a cookie entry that reads `session_id=<value>`.
pub open spec fn session_value(entry: Seq<char>) -> Option<Seq<char>> {
    let key = "session_id="@;
    if entry.len() >= key.len() && entry.take(key.len() as int) == key {
        Some(entry.skip(key.len() as int))
    } else {
        None
    }
}

/// The session identifier in a `Cookie` header: the header is cut at each
/// semicolon, each entry trimmed, and the first entry that reads
/// `session_id=<value>` gives the value.
pub open spec fn session_in_cookies(header: Seq<char>) -> Option<Seq<char>>
    decreases header.len(),
{
    if free_of(header, ';') {
        session_value(trim_of(header))
    } else {
        let i = choose|i: int|
            0 <= i < header.len() && header[i] == ';' && free_of(header.take(i), ';');
        if 0 <= i < header.len() {
            match session_value(trim_of(header.take(i))) {
                Some(v) => Some(v),
                None => session_in_cookies(header.skip(i + 1)),
            }
        } else {
            None
        }
    }
}

/// Where a semicolon-free prefix is followed by a semicolon, that semicolon
/// is the first one.
pub proof fn lemma_first_semicolon(s: Seq<char>, a: Seq<char>, b: Seq<char>)
    requires
        s == a + seq![';'] + b,
        free_of(a, ';'),
    ensures
        !free_of(s, ';'),
        (choose|i: int| 0 <= i < s.len() && s[i] == ';' && free_of(s.take(i), ';')) == a.len(),
        s.take(a.len() as int) == a,
        s.skip(a.len() as int + 1) == b,
{
    let n = a.len() as int;
    assert(s[n] == ';');
    assert(s.take(n) =~= a);
    assert(s.skip(n + 1) =~= b);
    assert(0 <= n < s.len() && s[n] == ';' && free_of(s.take(n), ';'));
    let i = choose|i: int| 0 <= i < s.len() && s[i] == ';' && free_of(s.take(i), ';');
    if i < n {
        assert(a[i] == s[i]);
    } else if i > n {
        assert(s.take(i)[n] == ';');
    }
}

/// Finds the session identifier in a `Cookie` header.
pub fn session_from_cookies(header: &str) -> (r: Option<String>)
    ensures
        match r {
            Some(v) => session_in_cookies(header@) == Some(v@),
            None => session_in_cookies(header@) is None,
        },
{
    let mut rest = header;
    loop
        invariant
            session_in_cookies(rest@) == session_in_cookies(header@),
        decreases rest@.len(),
    {
        match split_once_at(rest, ';') {
            Some((entry, tail)) => {
                proof {
                    lemma_first_semicolon(rest@, entry@, tail@);
                }
                let t = trimmed(entry);
                if let Some(v) = strip_prefix(t, "session_id=") {
                    proof {
                        reveal_strlit("session_id=");
                    }
                    return Some(v.to_owned());
                }
                proof {
                    reveal_strlit("session_id=");
                }
                rest = tail;
            },
            None => {
                let t = trimmed(rest);
                proof {
                    reveal_strlit("session_id=");
                }
                return match strip_prefix(t, "session_id=") {
                    Some(v) => Some(v.to_owned()),
                    None => None,
                };
            },
        }
    }
}

/// Where a login stands.
#[derive(PartialEq, Eq, Structural, Clone, Copy, Debug)]
pub enum LoginStage {
    /// Looking the user name up.
    LookUp,
    /// The user exists; comparing the password hash.
    CheckPassword,
    /// The password matched; storing the new session identifier.
    StoreSession,
    /// The user is new; storing the user with its session identifier.
    Register,
}

/// What the user store answered at the current stage.
#[derive(PartialEq, Eq, Structural, Clone, Copy, Debug)]
pub enum LoginEvent {
    Found,
    Missing,
    Matched,
    Mismatched,
    Stored,
    Failed,
}

/// Why a login that passed the form checks was refused.
#[derive(PartialEq, Eq, Structural, Clone, Copy, Debug)]
pub enum LoginRefusal {
    InvalidPassword,
    DatabaseError,
    SessionUpdateFailed,
    RegistrationFailed,
}

/// What to do next.
#[derive(PartialEq, Eq, Structural, Clone, Copy, Debug)]
pub enum LoginAction {
    Go(LoginStage),
    SignIn,
    Refuse(LoginRefusal),
}

/// The login flow: an existing user's password is checked and a new session
/// stored; an unknown user is registered; each store failure has its own
/// refusal. An answer that does not belong to the stage is a store error.
pub open spec fn login_transition(stage: LoginStage, event: LoginEvent) -> LoginAction {
    match (stage, event) {
        (LoginStage::LookUp, LoginEvent::Found) => LoginAction::Go(LoginStage::CheckPassword),
        (LoginStage::LookUp, LoginEvent::Missing) => LoginAction::Go(LoginStage::Register),
        (LoginStage::CheckPassword, LoginEvent::Matched) => LoginAction::Go(LoginStage::StoreSession),
        (LoginStage::CheckPassword, LoginEvent::Mismatched) => LoginAction::Refuse(
            LoginRefusal::InvalidPassword,
        ),
        (LoginStage::StoreSession, LoginEvent::Stored) => LoginAction::SignIn,
        (LoginStage::StoreSession, LoginEvent::Failed) => LoginAction::Refuse(
            LoginRefusal::SessionUpdateFailed,
        ),
        (LoginStage::Register, LoginEvent::Stored) => LoginAction::SignIn,
        (LoginStage::Register, LoginEvent::Failed) => LoginAction::Refuse(
            LoginRefusal::RegistrationFailed,
        ),
        _ => LoginAction::Refuse(LoginRefusal::DatabaseError),
    }
}

/// Decides the next step of a login from the store's answer.
pub fn login_step(stage: LoginStage, event: LoginEvent) -> (r: LoginAction)
    ensures
        r == login_transition(stage, event),
{
    match (stage, event) {
        (LoginStage::LookUp, LoginEvent::Found) => LoginAction::Go(LoginStage::CheckPassword),
        (LoginStage::LookUp, LoginEvent::Missing) => LoginAction::Go(LoginStage::Register),
        (LoginStage::CheckPassword, LoginEvent::Matched) => LoginAction::Go(LoginStage::StoreSession),
        (LoginStage::CheckPassword, LoginEvent::Mismatched) => LoginAction::Refuse(
            LoginRefusal::InvalidPassword,
        ),
        (LoginStage::StoreSession, LoginEvent::Stored) => LoginAction::SignIn,
        (LoginStage::StoreSession, LoginEvent::Failed) => LoginAction::Refuse(
            LoginRefusal::SessionUpdateFailed,
        ),
        (LoginStage::Register, LoginEvent::Stored) => LoginAction::SignIn,
        (LoginStage::Register, LoginEvent::Failed) => LoginAction::Refuse(
            LoginRefusal::RegistrationFailed,
        ),
        _ => LoginAction::Refuse(LoginRefusal::DatabaseError),
    }
}

impl LoginRefusal {
    /// The HTTP status of the reply.
    pub fn status(&self) -> (code: u16)
        ensures
            code == (if *self == LoginRefusal::InvalidPassword {
                401u16
            } else {
                500u16
            }),
    {
        match self {
            LoginRefusal::InvalidPassword => 401,
            _ => 500,
        }
    }

    /// The text of the reply.
    pub fn message(&self) -> (m: &'static str)
        ensures
            m@ == refusal_message(*self),
    {
        proof {
            reveal_strlit("Invalid password");
            reveal_strlit("Database error");
            reveal_strlit("Failed to update session");
            reveal_strlit("Failed to register user");
        }
        match self {
            LoginRefusal::InvalidPassword => "Invalid password",
            LoginRefusal::DatabaseError => "Database error",
            LoginRefusal::SessionUpdateFailed => "Failed to update session",
            LoginRefusal::RegistrationFailed => "Failed to register user",
        }
    }
}

/// The text of each refusal's reply.
pub open spec fn refusal_message(r: LoginRefusal) -> Seq<char> {
    match r {
        LoginRefusal::InvalidPassword => "Invalid password"@,
        LoginRefusal::DatabaseError => "Database error"@,
        LoginRefusal::SessionUpdateFailed => "Failed to update session"@,
        LoginRefusal::RegistrationFailed => "Failed to register user"@,
    }
}

} // verus!
