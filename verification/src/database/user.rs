use vstd::prelude::*;
use vstd::string::StringExecFns;
use crate::utils::errors_catcher::{ErrorResponder, ErrorType, ErrorTypeKind, answers, answers_with, response_of};
use crate::utils::crypto::{TotpSettings, totp_accepts_settings, totp_check, totp_checks, bcrypt_hash, bcrypt_verifies, printable};
use crate::database::picture_condition::copy_values;

verus! {

/// The status of a user account.
#[derive(Debug, Clone, Copy, PartialEq, Eq, Structural)]
pub enum UserStatus {
    Unconfirmed,
    Normal,
    Banned,
    Admin,
}

/// What a confirmation code or token confirms.
#[derive(Debug, Clone, Copy, PartialEq, Eq, Structural)]
pub enum ConfirmationAction {
    Signup,
    Signin,
    DeleteAccount,
}

/// A user account. Dates are seconds since the Unix epoch, naive UTC.
#[derive(Debug, Clone, PartialEq)]
pub struct User {
    pub id: i32,
    pub name: String,
    pub email: String,
    pub password_hash: String,
    pub creation_date: i64,
    pub status: UserStatus,
    pub tfa_login: bool,
    pub storage_count_ko: i64,
    pub storage_limit_ko: i64,
}

/// Two users who are friends.
#[derive(Debug, Clone, Copy, PartialEq, Eq, Structural)]
pub struct Friends {
    pub user_id_1: i32,
    pub user_id_2: i32,
}

/// A token authenticating a user on a device.
#[derive(Debug, Clone, PartialEq)]
pub struct AuthToken {
    pub user_id: i32,
    pub token: Vec<u8>,
    pub creation_date: i64,
    pub last_use_date: i64,
    pub device_string: Option<String>,
    pub ip_address: Option<Vec<u8>>,
}

/// A confirmation sent to a user: a token for a link and a code to type.
#[derive(Debug, Clone, PartialEq)]
pub struct Confirmation {
    pub user_id: i32,
    pub action: ConfirmationAction,
    pub used: bool,
    pub date: i64,
    pub token: Vec<u8>,
    pub code_token: Vec<u8>,
    pub code: i16,
    pub code_trials: i16,
    pub redirect_url: Option<String>,
    pub device_string: Option<String>,
    pub ip_address: Option<String>,
}

/// A TOTP secret of a user.
#[derive(Debug, Clone, PartialEq)]
pub struct TOTPSecret {
    pub user_id: i32,
    pub creation_date: i64,
    pub secret: Vec<u8>,
}

/// The oldest date at which a confirmation made `max_minutes` minutes ago
/// is still valid at the date `now`.
pub open spec fn expiry_bound(now: i64, max_minutes: i64) -> int {
    now - max_minutes * 60
}

/// The error a confirmation check answers with, if any.
pub open spec fn confirmation_refusal(c: Confirmation, now: i64, max_minutes: i64, with_code: bool) -> Option<ErrorType> {
    if c.used {
        Some(ErrorType::ConfirmationAlreadyUsed)
    } else if c.date < expiry_bound(now, max_minutes) {
        Some(ErrorType::ConfirmationExpired)
    } else if with_code && c.code_trials >= 3 {
        Some(ErrorType::ConfirmationTooManyAttempts)
    } else {
        None
    }
}

/// What checking a confirmation decides.
/// A confirmation is used once: once used, it is refused as already used,
/// by code as by token, whatever its date, code or trials.
pub proof fn law_confirmation_single_use(c: Confirmation, now: i64, max_minutes: i64)
    requires
        c.used,
    ensures
        confirmation_refusal(c, now, max_minutes, true) == Some(ErrorType::ConfirmationAlreadyUsed),
        confirmation_refusal(c, now, max_minutes, false) == Some(ErrorType::ConfirmationAlreadyUsed),
{
}

#[derive(Debug, Clone, PartialEq)]
pub enum ConfirmationCheck {
    /// The confirmation holds: mark it as used and go to its redirect URL, if any.
    Accept(Option<String>),
    /// The code is wrong: store the new number of trials, then answer the error.
    WrongCode(i16, ErrorResponder),
    /// The check fails with the error.
    Refuse(ErrorResponder),
}

impl Confirmation {
    /// Checks a confirmation code against the confirmation found, if any,
    /// at the date `now`: it must be unused, made less than `max_minutes`
    /// minutes ago, have had fewer than 3 wrong codes, and match the code.
    pub fn check_code(found: Option<Confirmation>, code: i16, now: i64, max_minutes: i64) -> (r: ConfirmationCheck)
        requires
            i64::MIN <= max_minutes * 60 <= i64::MAX,
            i64::MIN <= now - max_minutes * 60 <= i64::MAX,
        ensures
            found is None ==> (r matches ConfirmationCheck::Refuse(e) && answers(e, ErrorType::ConfirmationNotFound, false)),
            found matches Some(c) ==> match confirmation_refusal(c, now, max_minutes, true) {
                Some(err) => r matches ConfirmationCheck::Refuse(e) && answers(e, err, false),
                None => if c.code != code {
                    r matches ConfirmationCheck::WrongCode(trials, e) && trials == c.code_trials + 1
                        && answers(e, ErrorType::ConfirmationNotFound, false)
                } else {
                    r == ConfirmationCheck::Accept(c.redirect_url)
                },
            },
    {
        match found {
            None => ConfirmationCheck::Refuse(ErrorType::ConfirmationNotFound.res_no_rollback()),
            Some(c) => {
                if c.used {
                    return ConfirmationCheck::Refuse(ErrorType::ConfirmationAlreadyUsed.res_no_rollback());
                }
                if c.date < now - max_minutes * 60 {
                    return ConfirmationCheck::Refuse(ErrorType::ConfirmationExpired.res_no_rollback());
                }
                if c.code_trials >= 3 {
                    return ConfirmationCheck::Refuse(ErrorType::ConfirmationTooManyAttempts.res_no_rollback());
                }
                if c.code != code {
                    return ConfirmationCheck::WrongCode(c.code_trials + 1, ErrorType::ConfirmationNotFound.res_no_rollback());
                }
                ConfirmationCheck::Accept(c.redirect_url)
            },
        }
    }

    /// Checks a confirmation token against the confirmation found, if any,
    /// at the date `now`: it must be unused and made less than
    /// `max_minutes` minutes ago.
    pub fn check_token(found: Option<Confirmation>, now: i64, max_minutes: i64) -> (r: ConfirmationCheck)
        requires
            i64::MIN <= max_minutes * 60 <= i64::MAX,
            i64::MIN <= now - max_minutes * 60 <= i64::MAX,
        ensures
            found is None ==> (r matches ConfirmationCheck::Refuse(e) && answers(e, ErrorType::ConfirmationNotFound, false)),
            found matches Some(c) ==> match confirmation_refusal(c, now, max_minutes, false) {
                Some(err) => r matches ConfirmationCheck::Refuse(e) && answers(e, err, false),
                None => r == ConfirmationCheck::Accept(c.redirect_url),
            },
    {
        match found {
            None => ConfirmationCheck::Refuse(ErrorType::ConfirmationNotFound.res_no_rollback()),
            Some(c) => {
                if c.used {
                    return ConfirmationCheck::Refuse(ErrorType::ConfirmationAlreadyUsed.res_no_rollback());
                }
                if c.date < now - max_minutes * 60 {
                    return ConfirmationCheck::Refuse(ErrorType::ConfirmationExpired.res_no_rollback());
                }
                ConfirmationCheck::Accept(c.redirect_url)
            },
        }
    }
}

/// An auth token's last use date is refreshed once more than ten minutes passed.
pub open spec fn needs_refresh(last_use_date: i64, now: i64) -> bool {
    now - last_use_date > 600
}

/// The message of an internal error answered when a TOTP secret is too
/// short.
pub open spec fn totp_short_secret(e: ErrorResponder) -> bool {
    answers_with(e, 500, ErrorTypeKind::InternalError, "Internal error: "@ + "Unable to create Rfc6238 (for TOTP)"@)
}

/// The message of an internal error answered when the clock could not be
/// read to check a TOTP code.
pub open spec fn totp_no_clock(e: ErrorResponder) -> bool {
    answers_with(e, 500, ErrorTypeKind::InternalError, "Internal error: "@ + "SystemTimeError occurred when checking TOTP."@)
}

/// A clock reading at which TOTP codes of 30 second steps can be checked:
/// at least one step after 1970, and two steps before the largest time.
pub open spec fn totp_time_in_range(now: Option<u64>) -> bool {
    now matches Some(t) ==> 30 <= t <= u64::MAX - 60
}

/// What checking a code against the secret gives at the clock reading
/// `now`: nothing when the clock could not be read, else whether the code
/// is valid for the TOTP of six digits, 30 second steps and a skew of one
/// step.
pub open spec fn totp_outcome(secret: Seq<u8>, code: Seq<char>, now: Option<u64>) -> Option<bool> {
    match now {
        Some(t) => Some(totp_checks(6, 1, 30, secret, code, t)),
        None => None,
    }
}

/// How checking a code against secrets tried in order ends.
#[derive(Debug, Clone, Copy, PartialEq, Eq, Structural)]
pub enum TotpAnswer {
    /// A secret accepts the code.
    Valid,
    /// No secret accepts the code.
    Invalid,
    /// A secret too short to make a TOTP was reached.
    ShortSecret,
    /// The clock could not be read.
    NoClock,
}

/// How checking the code against the secrets, in order, ends: at the first
/// secret that is too short, that the clock prevents from checking, or
/// that accepts the code.
pub open spec fn totp_answer(secrets: Seq<TOTPSecret>, code: Seq<char>, now: Option<u64>) -> TotpAnswer
    decreases secrets.len(),
{
    if secrets.len() == 0 {
        TotpAnswer::Invalid
    } else if secrets[0].secret@.len() < 16 {
        TotpAnswer::ShortSecret
    } else {
        match totp_outcome(secrets[0].secret@, code, now) {
            None => TotpAnswer::NoClock,
            Some(true) => TotpAnswer::Valid,
            Some(false) => totp_answer(secrets.drop_first(), code, now),
        }
    }
}

/// The result `r` is the answer `a`: whether the code is valid, or the
/// internal error of a short secret or of an unreadable clock.
pub open spec fn totp_answered(r: Result<bool, ErrorResponder>, a: TotpAnswer) -> bool {
    match a {
        TotpAnswer::Valid => r == Ok::<bool, ErrorResponder>(true),
        TotpAnswer::Invalid => r == Ok::<bool, ErrorResponder>(false),
        TotpAnswer::ShortSecret => r matches Err(e) && totp_short_secret(e),
        TotpAnswer::NoClock => r matches Err(e) && totp_no_clock(e),
    }
}

/// What is done with the outcome of checking a code against one secret:
/// a valid code ends the check, an unread clock ends it with an internal
/// error, and an invalid code lets it go on with the next secret.
pub fn totp_verdict(outcome: Option<bool>) -> (r: Option<Result<bool, ErrorResponder>>)
    ensures
        outcome == Some(true) ==> r == Some(Ok::<bool, ErrorResponder>(true)),
        outcome is None ==> (r matches Some(Err(e)) && totp_no_clock(e)),
        outcome == Some(false) ==> r is None,
{
    match outcome {
        Some(true) => Some(Ok(true)),
        Some(false) => None,
        None => Some(Err(ErrorType::InternalError(String::from_str("SystemTimeError occurred when checking TOTP.")).res())),
    }
}

impl TOTPSecret {
    /// The TOTP settings of the secret: six digits, 30 second steps, codes
    /// of the steps just before and after accepted too. A secret shorter
    /// than 16 bytes is refused with an internal error.
    pub fn to_totp(&self) -> (r: Result<TotpSettings, ErrorResponder>)
        ensures
            r is Ok <==> self.secret@.len() >= 16,
            r matches Ok(s) ==> s.digits == 6 && s.skew == 1 && s.step == 30 && s.secret@ == self.secret@,
            r matches Err(e) ==> totp_short_secret(e),
    {
        let settings = TotpSettings { digits: 6, skew: 1, step: 30, secret: copy_values(&self.secret) };
        if totp_accepts_settings(&settings) {
            Ok(settings)
        } else {
            Err(ErrorType::InternalError(String::from_str("Unable to create Rfc6238 (for TOTP)")).res())
        }
    }

    /// Whether the code is the current code of one of the user's TOTP
    /// secrets, tried in order, `now` being the clock's reading in seconds
    /// since 1970, if it could be read.
    pub fn check_user_totp(secrets: &Vec<TOTPSecret>, code: &str, now: Option<u64>) -> (r: Result<bool, ErrorResponder>)
        requires
            totp_time_in_range(now),
        ensures
            totp_answered(r, totp_answer(secrets@, code@, now)),
    {
        let mut i: usize = 0;
        assert(secrets@.subrange(0, secrets@.len() as int) =~= secrets@);
        while i < secrets.len()
            invariant
                i <= secrets@.len(),
                totp_time_in_range(now),
                totp_answer(secrets@, code@, now) == totp_answer(secrets@.subrange(i as int, secrets@.len() as int), code@, now),
            decreases secrets.len() - i,
        {
            let ghost rest = secrets@.subrange(i as int, secrets@.len() as int);
            assert(rest[0] == secrets@[i as int]);
            assert(rest.drop_first() =~= secrets@.subrange(i + 1, secrets@.len() as int));
            let totp = match secrets[i].to_totp() {
                Ok(t) => t,
                Err(e) => {
                    return Err(e);
                },
            };
            let outcome = match now {
                Some(t) => Some(totp_check(&totp, code, t)),
                None => None,
            };
            match totp_verdict(outcome) {
                Some(answer) => {
                    return answer;
                },
                None => {},
            }
            i = i + 1;
        }
        assert(secrets@.subrange(i as int, secrets@.len() as int) =~= Seq::<TOTPSecret>::empty());
        Ok(false)
    }
}

impl AuthToken {
    /// Whether the last use date of the token must be refreshed at the date `now`.
    pub fn update_last_use_date(&self, now: i64) -> (r: bool)
        ensures
            r == needs_refresh(self.last_use_date, now),
    {
        (now as i128) - (self.last_use_date as i128) > 600
    }
}

impl User {
    /// The user found from the credentials of a request: refused when the
    /// credentials match no user, or a user that is unconfirmed or banned.
    pub fn check_logged_in(found: Option<(User, AuthToken)>) -> (r: Result<(User, AuthToken), ErrorResponder>)
        ensures
            found is None ==> (r matches Err(e) && answers(e, ErrorType::UserNotFound, false)),
            found matches Some(x) ==> if x.0.status == UserStatus::Unconfirmed {
                r matches Err(e) && answers(e, ErrorType::UserUnconfirmed, false)
            } else if x.0.status == UserStatus::Banned {
                r matches Err(e) && answers(e, ErrorType::UserBanned, false)
            } else {
                r == Ok::<(User, AuthToken), ErrorResponder>(x)
            },
    {
        match found {
            None => Err(ErrorType::UserNotFound.res()),
            Some((user, auth)) => {
                if user.status == UserStatus::Unconfirmed {
                    Err(ErrorType::UserUnconfirmed.res())
                } else if user.status == UserStatus::Banned {
                    Err(ErrorType::UserBanned.res())
                } else {
                    Ok((user, auth))
                }
            },
        }
    }

    /// Signing up under the name `name` with the password `password`,
    /// `existing_user` being the account that already has the email, if
    /// any: refused unless that account is still unconfirmed, whose row is
    /// then reused. Answers the row to write: its name and the bcrypt hash
    /// of the password, and, for a reused account, its id and that its
    /// sign up confirmations are all to be marked used.
    pub fn create_user(existing_user: Option<&User>, name: String, password: &str) -> (r: Result<SignupWrite, ErrorResponder>)
        ensures
            existing_user matches Some(u) && u.status != UserStatus::Unconfirmed ==> (r matches Err(e) && answers(
                e,
                ErrorType::EmailAlreadyExists,
                false,
            )),
            !(existing_user matches Some(u) && u.status != UserStatus::Unconfirmed) ==> (r is Ok || (r matches Err(e)
                && answers_with(e, 500, ErrorTypeKind::InternalError, "Internal error: "@ + "Unable to hash the password"@))),
            r matches Ok(w) ==> {
                &&& w.reused_id == match existing_user {
                    Some(u) => Some(u.id),
                    None => None::<i32>,
                }
                &&& w.mark_signup_confirmations_used == (existing_user is Some)
                &&& w.name@ == name@
                &&& printable(w.password_hash@)
                &&& bcrypt_verifies(password@, w.password_hash@)
            },
    {
        let reused_id = match existing_user {
            None => None,
            Some(u) => {
                if u.status != UserStatus::Unconfirmed {
                    return Err(ErrorType::EmailAlreadyExists.res());
                }
                Some(u.id)
            },
        };
        match bcrypt_hash(password) {
            Some(password_hash) => Ok(
                SignupWrite { reused_id, mark_signup_confirmations_used: reused_id.is_some(), name, password_hash },
            ),
            None => Err(ErrorType::InternalError(String::from_str("Unable to hash the password")).res()),
        }
    }
}

/// The user row that a sign up writes: a new row, or, when `reused_id` is
/// set, the row of that unconfirmed account, updated, whose sign up
/// confirmations are then all marked used.
#[derive(Debug, Clone, PartialEq)]
pub struct SignupWrite {
    pub reused_id: Option<i32>,
    pub mark_signup_confirmations_used: bool,
    pub name: String,
    pub password_hash: String,
}

} // verus!
