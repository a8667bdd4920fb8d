use vstd::prelude::*;
use vstd::string::StrSliceExecFns;
use crate::database::user::{User, UserStatus, SignupWrite, TOTPSecret, TotpAnswer, totp_answer, totp_short_secret, totp_no_clock, totp_time_in_range};
use crate::utils::crypto::{bcrypt_verify, bcrypt_verifies, printable, hex_encode, hex_encoding};
use crate::utils::errors_catcher::{ErrorResponder, ErrorType, answers};
use crate::utils::utils::{decimal, decimal_digits, digit_char, int_to_string, left_pad};
use vstd::string::{StringExecFns, StringSliceAdditionalSpecFns};

verus! {

/// Credentials of a sign in.
#[derive(Debug, Clone, PartialEq)]
pub struct SigninData {
    pub email: String,
    pub password: String,
    pub totp_code: Option<String>,
    /// Optional redirect URL for the TFA confirmation (email confirmation)
    pub redirect_url: Option<String>,
}

/// Answer to a successful sign in.
#[derive(Debug, Clone, PartialEq)]
pub struct SigninResponse {
    pub status: UserStatus,
    pub user_id: i32,
    pub name: String,
    pub email: String,
    /// The auth token, in hexadecimal.
    pub auth_token: String,
}

/// Answer to a sign in that continues by email.
#[derive(Debug, Clone, PartialEq)]
pub struct SigninEmailResponse {
    pub user_id: i32,
    pub code_token: String,
}

/// Data of a sign up.
#[derive(Debug, Clone, PartialEq)]
pub struct SignupData {
    pub name: String,
    pub email: String,
    pub password: String,
    /// Optional redirect URL for the email confirmation
    pub redirect_url: Option<String>,
}

/// Answer to a sign up.
#[derive(Debug, Clone, PartialEq)]
pub struct SignupResponse {
    pub user_id: i32,
    pub code_token: String,
}

/// The account information of a user.
#[derive(Debug, Clone, PartialEq)]
pub struct StatusResponse {
    pub name: String,
    pub email: String,
    pub status: UserStatus,
}

/// The answer to a sign in, from the user found by email, if any, and
/// whether the password matched that user's hash:
/// - `InvalidEmailOrPassword` if no user has the email or the password is incorrect.
/// - `UserBanned` if the user is banned.
/// - `UserUnconfirmed` if the user is unconfirmed (account not email verified).
/// - the user otherwise.
pub fn check_user_status(found: Option<User>, password_matches: bool) -> (r: Result<User, ErrorResponder>)
    ensures
        found is None || !password_matches ==> (r matches Err(e) && answers(e, ErrorType::InvalidEmailOrPassword, false)),
        found is Some && password_matches ==> ({
            let u = found->Some_0;
            &&& u.status == UserStatus::Banned ==> (r matches Err(e) && answers(e, ErrorType::UserBanned, false))
            &&& u.status == UserStatus::Unconfirmed ==> (r matches Err(e) && answers(e, ErrorType::UserUnconfirmed, false))
            &&& u.status != UserStatus::Banned && u.status != UserStatus::Unconfirmed ==> r == Ok::<User, ErrorResponder>(u)
        }),
{
    let user = match found {
        None => {
            return Err(ErrorType::InvalidEmailOrPassword.res());
        },
        Some(u) => u,
    };
    if !password_matches {
        return Err(ErrorType::InvalidEmailOrPassword.res());
    }
    match user.status {
        UserStatus::Banned => Err(ErrorType::UserBanned.res()),
        UserStatus::Unconfirmed => Err(ErrorType::UserUnconfirmed.res()),
        _ => Ok(user),
    }
}

/// The password matches the user found, if any: its stored hash is a
/// bcrypt hash of the password, written with ASCII characters from the
/// space character on.
pub open spec fn password_matches(found: Option<User>, password: Seq<char>) -> bool {
    found is Some && printable(found->Some_0.password_hash@) && bcrypt_verifies(password, found->Some_0.password_hash@)
}

/// The password given at sign up matches the account at sign in: a user
/// whose stored hash is the one that [`User::create_user`] answered for the
/// password is found with that password.
pub proof fn law_signup_password_signs_in(w: SignupWrite, u: User, password: Seq<char>)
    requires
        printable(w.password_hash@),
        bcrypt_verifies(password, w.password_hash@),
        u.password_hash@ == w.password_hash@,
    ensures
        password_matches(Some(u), password),
{
}

/// Checks the user's email and password, from the user found by email, if
/// any, returning the user if the credentials are correct, as
/// [`check_user_status`] answers. A stored hash holding a character that
/// is not ASCII, or comes before the space character, matches no password.
pub fn check_user_password_and_status(found: Option<User>, password: &str) -> (r: Result<User, ErrorResponder>)
    ensures
        ({
            let matches = password_matches(found, password@);
            &&& !matches ==> (r matches Err(e) && answers(e, ErrorType::InvalidEmailOrPassword, false))
            &&& matches && found->Some_0.status == UserStatus::Banned ==> (r matches Err(e) && answers(e, ErrorType::UserBanned, false))
            &&& matches && found->Some_0.status == UserStatus::Unconfirmed ==> (r matches Err(e)
                && answers(e, ErrorType::UserUnconfirmed, false))
            &&& matches && found->Some_0.status != UserStatus::Banned && found->Some_0.status != UserStatus::Unconfirmed
                ==> r == Ok::<User, ErrorResponder>(found->Some_0)
        }),
{
    let password_matches = match &found {
        None => false,
        Some(u) => is_printable(u.password_hash.as_str()) && bcrypt_verify(password, u.password_hash.as_str()),
    };
    check_user_status(found, password_matches)
}

/// Whether every character of the text is an ASCII character from the
/// space character on.
fn is_printable(s: &str) -> (r: bool)
    ensures
        r == printable(s@),
{
    let n = s.unicode_len();
    let mut i: usize = 0;
    while i < n
        invariant
            n == s@.len(),
            i <= n,
            forall|k: int| 0 <= k < i ==> 32 <= (#[trigger] s@[k]) as u32 && (s@[k] as u32) < 128,
        decreases n - i,
    {
        let c = s.get_char(i);
        if (c as u32) < 32 || (c as u32) >= 128 {
            return false;
        }
        i = i + 1;
    }
    true
}

/// The second factor of a sign in, for a user whose password matched and
/// who has the TOTP secrets `secrets`, `now` being the clock's reading in
/// seconds since 1970, if it could be read. A user with two factor login
/// must give a valid TOTP code: without one, `TFARequired` when the user
/// has a TOTP secret, else `TFARequiredOverEmail`; with one, the code is
/// checked against the secrets in order, and refused with
/// `InvalidTOTPCode` when none accepts it.
pub fn signin_second_factor(user: &User, totp_code: &Option<String>, secrets: &Vec<TOTPSecret>, now: Option<u64>) -> (r: Result<
    (),
    ErrorResponder,
>)
    requires
        totp_time_in_range(now),
    ensures
        !user.tfa_login ==> r is Ok,
        user.tfa_login && totp_code is None && secrets@.len() > 0 ==> (r matches Err(e) && answers(e, ErrorType::TFARequired, false)),
        user.tfa_login && totp_code is None && secrets@.len() == 0 ==> (r matches Err(e)
            && answers(e, ErrorType::TFARequiredOverEmail, false)),
        user.tfa_login && totp_code is Some ==> match totp_answer(secrets@, totp_code->Some_0@, now) {
            TotpAnswer::Valid => r is Ok,
            TotpAnswer::Invalid => r matches Err(e) && answers(e, ErrorType::InvalidTOTPCode, false),
            TotpAnswer::ShortSecret => r matches Err(e) && totp_short_secret(e),
            TotpAnswer::NoClock => r matches Err(e) && totp_no_clock(e),
        },
{
    if user.tfa_login {
        match totp_code {
            Some(code) => {
                let valid = match TOTPSecret::check_user_totp(secrets, code.as_str(), now) {
                    Ok(v) => v,
                    Err(e) => {
                        return Err(e);
                    },
                };
                if !valid {
                    return Err(ErrorType::InvalidTOTPCode.res());
                }
            },
            None => {
                if secrets.len() > 0 {
                    return Err(ErrorType::TFARequired.res());
                }
                return Err(ErrorType::TFARequiredOverEmail.res());
            },
        }
    }
    Ok(())
}

impl SigninResponse {
    /// The answer to a sign in of the user, with its new auth token.
    pub fn new(user: User, auth_token: &Vec<u8>) -> (r: SigninResponse)
        ensures
            r.status == user.status,
            r.user_id == user.id,
            r.name == user.name,
            r.email == user.email,
            r.auth_token@ == hex_encoding(auth_token@),
    {
        SigninResponse { status: user.status, user_id: user.id, name: user.name, email: user.email, auth_token: hex_encode(auth_token) }
    }
}

impl StatusResponse {
    /// The account information of the user.
    pub fn new(user: User) -> (r: StatusResponse)
        ensures
            r.name == user.name,
            r.email == user.email,
            r.status == user.status,
    {
        StatusResponse { name: user.name, email: user.email, status: user.status }
    }
}

/// What a confirmation email links to and shows, and the answer that
/// identifies the confirmation to the client.
pub struct ConfirmationTexts {
    /// The link that confirms by token.
    pub url: String,
    /// The code, written with four digits.
    pub code: String,
    /// The token that identifies the confirmation when the code is typed.
    pub code_token: String,
}

/// A number below ten thousand written with four digits, zeros first.
pub open spec fn four_digits(code: int) -> Seq<char> {
    Seq::new((4 - decimal(code).len()) as nat, |i: int| '0') + decimal(code)
}

proof fn lemma_decimal_digits_short(n: nat, k: nat)
    requires
        n < crate::utils::crypto::pow10(k),
        k >= 1,
    ensures
        decimal_digits(n).len() <= k,
        forall|i: int| 0 <= i < decimal_digits(n).len() ==> '0' <= #[trigger] decimal_digits(n)[i] <= '9',
    decreases k,
{
    if n >= 10 {
        assert(k >= 2) by {
            if k == 1 {
                assert(crate::utils::crypto::pow10(1) == 10) by {
                    reveal_with_fuel(crate::utils::crypto::pow10, 2);
                }
            }
        }
        assert(n / 10 < crate::utils::crypto::pow10((k - 1) as nat));
        lemma_decimal_digits_short(n / 10, (k - 1) as nat);
        let p = decimal_digits(n / 10);
        let s = decimal_digits(n);
        assert forall|i: int| 0 <= i < s.len() implies '0' <= #[trigger] s[i] <= '9' by {
            if i < p.len() {
                assert(s[i] == p[i]);
            }
        }
    }
}

/// The texts of a confirmation of the user `user_id` on the page `page`
/// of the front end at `frontend_host`: the link with the user's id and
/// the token in hexadecimal, the code with four digits, and the code's
/// token in hexadecimal.
pub fn confirmation_texts(
    frontend_host: &str,
    page: &str,
    user_id: i32,
    token: &Vec<u8>,
    code: i16,
    code_token: &Vec<u8>,
) -> (r: ConfirmationTexts)
    requires
        0 <= code < 10000,
    ensures
        r.url@ == frontend_host@ + "/"@ + page@ + "?id="@ + decimal(user_id as int) + "&token="@ + hex_encoding(token@),
        r.code@ == four_digits(code as int),
        r.code_token@ == hex_encoding(code_token@),
{
    let mut url = String::from_str(frontend_host);
    url.append("/");
    url.append(page);
    url.append("?id=");
    let id = int_to_string(user_id as i64);
    url.append(id.as_str());
    url.append("&token=");
    let hex_token = hex_encode(token);
    url.append(hex_token.as_str());
    let digits = int_to_string(code as i64);
    let digits_text = digits.as_str();
    proof {
        assert(crate::utils::crypto::pow10(4) == 10000) by {
            reveal_with_fuel(crate::utils::crypto::pow10, 5);
        }
        lemma_decimal_digits_short(code as nat, 4);
        assert(vstd::utf8::is_ascii_chars(digits@));
        vstd::string::is_ascii_spec_bytes(digits_text);
    }
    let code_text = left_pad(digits_text, '0', 4);
    assert(code_text@ =~= four_digits(code as int));
    ConfirmationTexts { url, code: code_text, code_token: hex_encode(code_token) }
}

} // verus!
