use vstd::prelude::*;
use vstd::string::StringExecFns;

verus! {

/// The kind of an error, without its data.
#[derive(Debug, Clone, Copy, PartialEq, Eq, Structural)]
pub enum ErrorTypeKind {
    BadRequest,
    Unauthorized,
    NotFound,
    UnprocessableEntity,
    InternalError,
    InvalidInput,
    UserNotFound,
    UserBanned,
    UserUnconfirmed,
    InvalidEmailOrPassword,
    TFARequiredOverEmail,
    TFARequired,
    InvalidTOTPCode,
    EmailAlreadyExists,
    ConfirmationAlreadyUsed,
    ConfirmationExpired,
    ConfirmationTooManyAttempts,
    ConfirmationNotFound,
    UserNotAdmin,
    TagNotFound,
    PictureNotFound,
    ArrangementNotFound,
    GroupIsNotManual,
    UnableToCreateThumbnail,
    UnableToCreateBlurhash,
    DatabaseError,
}

/// All possible errors, each answered by an [`ErrorResponder`].
#[derive(Debug, Clone, PartialEq)]
pub enum ErrorType {
    BadRequest,
    Unauthorized,
    NotFound(String),
    UnprocessableEntity(String),
    InternalError(String),
    /// Form validation (see UnprocessableEntity for type check related errors)
    InvalidInput(String),
    UserNotFound,
    UserBanned,
    UserUnconfirmed,
    InvalidEmailOrPassword,
    /// Only email confirmation is available
    TFARequiredOverEmail,
    /// TOTP or email confirmation is available
    TFARequired,
    InvalidTOTPCode,
    EmailAlreadyExists,
    ConfirmationAlreadyUsed,
    ConfirmationExpired,
    ConfirmationTooManyAttempts,
    ConfirmationNotFound,
    UserNotAdmin,
    TagNotFound,
    PictureNotFound,
    ArrangementNotFound,
    GroupIsNotManual,
    UnableToCreateThumbnail(String),
    UnableToCreateBlurhash(String),
    /// A database failure: a context message and the database's own message.
    DatabaseError(String, String),
}

/// The body of an error answer.
#[derive(Debug, Clone, PartialEq)]
pub struct ErrorResponse {
    pub error_type: ErrorTypeKind,
    pub message: String,
    /// Whether the database transaction must be rolled back.
    pub rollback: bool,
}

/// An error answer, one variant per HTTP status.
#[derive(Debug, Clone, PartialEq)]
pub enum ErrorResponder {
    BadRequest(ErrorResponse),
    Unauthorized(ErrorResponse),
    NotFound(ErrorResponse),
    UnprocessableEntity(ErrorResponse),
    InternalError(ErrorResponse),
}

pub open spec fn error_kind(e: ErrorType) -> ErrorTypeKind {
    match e {
        ErrorType::BadRequest => ErrorTypeKind::BadRequest,
        ErrorType::Unauthorized => ErrorTypeKind::Unauthorized,
        ErrorType::NotFound(_) => ErrorTypeKind::NotFound,
        ErrorType::UnprocessableEntity(_) => ErrorTypeKind::UnprocessableEntity,
        ErrorType::InternalError(_) => ErrorTypeKind::InternalError,
        ErrorType::InvalidInput(_) => ErrorTypeKind::InvalidInput,
        ErrorType::UserNotFound => ErrorTypeKind::UserNotFound,
        ErrorType::UserBanned => ErrorTypeKind::UserBanned,
        ErrorType::UserUnconfirmed => ErrorTypeKind::UserUnconfirmed,
        ErrorType::InvalidEmailOrPassword => ErrorTypeKind::InvalidEmailOrPassword,
        ErrorType::TFARequiredOverEmail => ErrorTypeKind::TFARequiredOverEmail,
        ErrorType::TFARequired => ErrorTypeKind::TFARequired,
        ErrorType::InvalidTOTPCode => ErrorTypeKind::InvalidTOTPCode,
        ErrorType::EmailAlreadyExists => ErrorTypeKind::EmailAlreadyExists,
        ErrorType::ConfirmationAlreadyUsed => ErrorTypeKind::ConfirmationAlreadyUsed,
        ErrorType::ConfirmationExpired => ErrorTypeKind::ConfirmationExpired,
        ErrorType::ConfirmationTooManyAttempts => ErrorTypeKind::ConfirmationTooManyAttempts,
        ErrorType::ConfirmationNotFound => ErrorTypeKind::ConfirmationNotFound,
        ErrorType::UserNotAdmin => ErrorTypeKind::UserNotAdmin,
        ErrorType::TagNotFound => ErrorTypeKind::TagNotFound,
        ErrorType::PictureNotFound => ErrorTypeKind::PictureNotFound,
        ErrorType::ArrangementNotFound => ErrorTypeKind::ArrangementNotFound,
        ErrorType::GroupIsNotManual => ErrorTypeKind::GroupIsNotManual,
        ErrorType::UnableToCreateThumbnail(_) => ErrorTypeKind::UnableToCreateThumbnail,
        ErrorType::UnableToCreateBlurhash(_) => ErrorTypeKind::UnableToCreateBlurhash,
        ErrorType::DatabaseError(_, _) => ErrorTypeKind::DatabaseError,
    }
}

/// The HTTP status answered for an error.
pub open spec fn error_status(e: ErrorType) -> u16 {
    match e {
        ErrorType::BadRequest => 400,
        ErrorType::NotFound(_) | ErrorType::TagNotFound | ErrorType::PictureNotFound
        | ErrorType::ArrangementNotFound => 404,
        ErrorType::UnprocessableEntity(_) | ErrorType::InvalidInput(_) | ErrorType::GroupIsNotManual => 422,
        ErrorType::InternalError(_) | ErrorType::UnableToCreateThumbnail(_) | ErrorType::UnableToCreateBlurhash(_)
        | ErrorType::DatabaseError(_, _) => 500,
        _ => 401,
    }
}

/// The message answered for an error.
pub open spec fn error_message(e: ErrorType) -> Seq<char> {
    match e {
        ErrorType::BadRequest => "Bad request"@,
        ErrorType::Unauthorized => "Unauthorized"@,
        ErrorType::NotFound(path) => "Not found: "@ + path@,
        ErrorType::UnprocessableEntity(msg) => msg@,
        ErrorType::InternalError(msg) => "Internal error: "@ + msg@,
        ErrorType::InvalidInput(msg) => msg@,
        ErrorType::UserNotFound => "User not found"@,
        ErrorType::UserBanned => "User is banned"@,
        ErrorType::UserUnconfirmed => "User is not confirmed"@,
        ErrorType::InvalidEmailOrPassword => "Invalid email or password"@,
        ErrorType::TFARequiredOverEmail => "2FA required over email"@,
        ErrorType::TFARequired => "2FA required"@,
        ErrorType::InvalidTOTPCode => "Invalid TOTP code"@,
        ErrorType::EmailAlreadyExists => "Email already exists"@,
        ErrorType::ConfirmationAlreadyUsed => "Confirmation code/token already used"@,
        ErrorType::ConfirmationExpired => "Confirmation code/token expired"@,
        ErrorType::ConfirmationTooManyAttempts => "Too many attempts"@,
        ErrorType::ConfirmationNotFound => "Invalid code/token"@,
        ErrorType::UserNotAdmin => "User is not an admin"@,
        ErrorType::TagNotFound => "Tag not found"@,
        ErrorType::PictureNotFound => "Picture not found"@,
        ErrorType::ArrangementNotFound => "Arrangement not found"@,
        ErrorType::GroupIsNotManual => "Group is not manual"@,
        ErrorType::UnableToCreateThumbnail(msg) => "Unable to create thumbnail: "@ + msg@,
        ErrorType::UnableToCreateBlurhash(msg) => "Unable to create blurhash: "@ + msg@,
        ErrorType::DatabaseError(msg, err) => "Database error: "@ + msg@ + " - "@ + err@,
    }
}

/// The body of an error answer.
pub open spec fn response_of(r: ErrorResponder) -> ErrorResponse {
    match r {
        ErrorResponder::BadRequest(x) => x,
        ErrorResponder::Unauthorized(x) => x,
        ErrorResponder::NotFound(x) => x,
        ErrorResponder::UnprocessableEntity(x) => x,
        ErrorResponder::InternalError(x) => x,
    }
}

/// The HTTP status of an error answer.
pub open spec fn responder_status(r: ErrorResponder) -> u16 {
    match r {
        ErrorResponder::BadRequest(_) => 400,
        ErrorResponder::Unauthorized(_) => 401,
        ErrorResponder::NotFound(_) => 404,
        ErrorResponder::UnprocessableEntity(_) => 422,
        ErrorResponder::InternalError(_) => 500,
    }
}

/// `r` answers the error `e`, rolling back or not as `rollback` says.
pub open spec fn answers(r: ErrorResponder, e: ErrorType, rollback: bool) -> bool {
    &&& responder_status(r) == error_status(e)
    &&& response_of(r).error_type == error_kind(e)
    &&& response_of(r).message@ == error_message(e)
    &&& response_of(r).rollback == rollback
}

/// `r` answers with the status `status`, an error of the kind `kind` and
/// the message `msg`, without rollback.
pub open spec fn answers_with(r: ErrorResponder, status: u16, kind: ErrorTypeKind, msg: Seq<char>) -> bool {
    &&& responder_status(r) == status
    &&& response_of(r).error_type == kind
    &&& response_of(r).message@ == msg
    &&& !response_of(r).rollback
}

/// `r` answers invalid input with the message `msg`, without rollback.
pub open spec fn answers_invalid_input(r: ErrorResponder, msg: Seq<char>) -> bool {
    &&& responder_status(r) == 422
    &&& response_of(r).error_type == ErrorTypeKind::InvalidInput
    &&& response_of(r).message@ == msg
    &&& !response_of(r).rollback
}

/// `r` answers a failure of the database itself, whose message is `err`.
pub open spec fn answers_database_failure(r: ErrorResponder, err: Seq<char>) -> bool {
    &&& responder_status(r) == 500
    &&& response_of(r).error_type == ErrorTypeKind::DatabaseError
    &&& response_of(r).message@ == "Database error: "@ + "Diesel error"@ + " - "@ + err
    &&& response_of(r).rollback
}

/// Concatenates a literal prefix and a text.
fn prefixed(prefix: &str, text: &String) -> (r: String)
    ensures
        r@ == prefix@ + text@,
{
    String::from_str(prefix).concat(text.as_str())
}

impl ErrorType {
    /// The kind of this error.
    pub fn kind(&self) -> (r: ErrorTypeKind)
        ensures
            r == error_kind(*self),
    {
        match self {
            ErrorType::BadRequest => ErrorTypeKind::BadRequest,
            ErrorType::Unauthorized => ErrorTypeKind::Unauthorized,
            ErrorType::NotFound(_) => ErrorTypeKind::NotFound,
            ErrorType::UnprocessableEntity(_) => ErrorTypeKind::UnprocessableEntity,
            ErrorType::InternalError(_) => ErrorTypeKind::InternalError,
            ErrorType::InvalidInput(_) => ErrorTypeKind::InvalidInput,
            ErrorType::UserNotFound => ErrorTypeKind::UserNotFound,
            ErrorType::UserBanned => ErrorTypeKind::UserBanned,
            ErrorType::UserUnconfirmed => ErrorTypeKind::UserUnconfirmed,
            ErrorType::InvalidEmailOrPassword => ErrorTypeKind::InvalidEmailOrPassword,
            ErrorType::TFARequiredOverEmail => ErrorTypeKind::TFARequiredOverEmail,
            ErrorType::TFARequired => ErrorTypeKind::TFARequired,
            ErrorType::InvalidTOTPCode => ErrorTypeKind::InvalidTOTPCode,
            ErrorType::EmailAlreadyExists => ErrorTypeKind::EmailAlreadyExists,
            ErrorType::ConfirmationAlreadyUsed => ErrorTypeKind::ConfirmationAlreadyUsed,
            ErrorType::ConfirmationExpired => ErrorTypeKind::ConfirmationExpired,
            ErrorType::ConfirmationTooManyAttempts => ErrorTypeKind::ConfirmationTooManyAttempts,
            ErrorType::ConfirmationNotFound => ErrorTypeKind::ConfirmationNotFound,
            ErrorType::UserNotAdmin => ErrorTypeKind::UserNotAdmin,
            ErrorType::TagNotFound => ErrorTypeKind::TagNotFound,
            ErrorType::PictureNotFound => ErrorTypeKind::PictureNotFound,
            ErrorType::ArrangementNotFound => ErrorTypeKind::ArrangementNotFound,
            ErrorType::GroupIsNotManual => ErrorTypeKind::GroupIsNotManual,
            ErrorType::UnableToCreateThumbnail(_) => ErrorTypeKind::UnableToCreateThumbnail,
            ErrorType::UnableToCreateBlurhash(_) => ErrorTypeKind::UnableToCreateBlurhash,
            ErrorType::DatabaseError(_, _) => ErrorTypeKind::DatabaseError,
        }
    }

    /// Convert to a result of [`ErrorResponder`] without transaction rollback
    pub fn res_err<T>(self) -> (r: Result<T, ErrorResponder>)
        ensures
            r matches Err(x) && answers(x, self, false),
    {
        Err(self.to_responder(false))
    }

    /// Same as [`ErrorType::res_err`].
    pub fn res_err_no_rollback<T>(self) -> (r: Result<T, ErrorResponder>)
        ensures
            r matches Err(x) && answers(x, self, false),
    {
        Err(self.to_responder(false))
    }

    /// Convert to a result of [`ErrorResponder`] with transaction rollback
    pub fn res_err_rollback<T>(self) -> (r: Result<T, ErrorResponder>)
        ensures
            r matches Err(x) && answers(x, self, true),
    {
        Err(self.to_responder(true))
    }

    /// Convert to a [`ErrorResponder`] without transaction rollback
    pub fn res(self) -> (r: ErrorResponder)
        ensures
            answers(r, self, false),
    {
        self.to_responder(false)
    }

    /// Same as [`ErrorType::res`].
    pub fn res_no_rollback(self) -> (r: ErrorResponder)
        ensures
            answers(r, self, false),
    {
        self.to_responder(false)
    }

    /// Convert to a [`ErrorResponder`] with transaction rollback
    pub fn res_rollback(self) -> (r: ErrorResponder)
        ensures
            answers(r, self, true),
    {
        self.to_responder(true)
    }

    /// The message of this error.
    fn message(self) -> (r: String)
        ensures
            r@ == error_message(self),
    {
        match self {
            ErrorType::BadRequest => String::from_str("Bad request"),
            ErrorType::Unauthorized => String::from_str("Unauthorized"),
            ErrorType::NotFound(path) => prefixed("Not found: ", &path),
            ErrorType::UnprocessableEntity(msg) => msg,
            ErrorType::InternalError(msg) => prefixed("Internal error: ", &msg),
            ErrorType::InvalidInput(msg) => msg,
            ErrorType::UserNotFound => String::from_str("User not found"),
            ErrorType::UserBanned => String::from_str("User is banned"),
            ErrorType::UserUnconfirmed => String::from_str("User is not confirmed"),
            ErrorType::InvalidEmailOrPassword => String::from_str("Invalid email or password"),
            ErrorType::TFARequiredOverEmail => String::from_str("2FA required over email"),
            ErrorType::TFARequired => String::from_str("2FA required"),
            ErrorType::InvalidTOTPCode => String::from_str("Invalid TOTP code"),
            ErrorType::EmailAlreadyExists => String::from_str("Email already exists"),
            ErrorType::ConfirmationAlreadyUsed => String::from_str("Confirmation code/token already used"),
            ErrorType::ConfirmationExpired => String::from_str("Confirmation code/token expired"),
            ErrorType::ConfirmationTooManyAttempts => String::from_str("Too many attempts"),
            ErrorType::ConfirmationNotFound => String::from_str("Invalid code/token"),
            ErrorType::UserNotAdmin => String::from_str("User is not an admin"),
            ErrorType::TagNotFound => String::from_str("Tag not found"),
            ErrorType::PictureNotFound => String::from_str("Picture not found"),
            ErrorType::ArrangementNotFound => String::from_str("Arrangement not found"),
            ErrorType::GroupIsNotManual => String::from_str("Group is not manual"),
            ErrorType::UnableToCreateThumbnail(msg) => prefixed("Unable to create thumbnail: ", &msg),
            ErrorType::UnableToCreateBlurhash(msg) => prefixed("Unable to create blurhash: ", &msg),
            ErrorType::DatabaseError(msg, err) => {
                let s = prefixed("Database error: ", &msg);
                s.concat(" - ").concat(err.as_str())
            },
        }
    }

    /// Converts to a [`ErrorResponder`]
    fn to_responder(self, rollback: bool) -> (r: ErrorResponder)
        ensures
            answers(r, self, rollback),
    {
        let kind = self.kind();
        let status = self.status();
        let response = ErrorResponse { error_type: kind, message: self.message(), rollback };
        if status == 400 {
            ErrorResponder::BadRequest(response)
        } else if status == 404 {
            ErrorResponder::NotFound(response)
        } else if status == 422 {
            ErrorResponder::UnprocessableEntity(response)
        } else if status == 500 {
            ErrorResponder::InternalError(response)
        } else {
            ErrorResponder::Unauthorized(response)
        }
    }

    /// The HTTP status answered for this error.
    pub fn status(&self) -> (r: u16)
        ensures
            r == error_status(*self),
    {
        match self {
            ErrorType::BadRequest => 400,
            ErrorType::NotFound(_) | ErrorType::TagNotFound | ErrorType::PictureNotFound
            | ErrorType::ArrangementNotFound => 404,
            ErrorType::UnprocessableEntity(_) | ErrorType::InvalidInput(_) | ErrorType::GroupIsNotManual => 422,
            ErrorType::InternalError(_) | ErrorType::UnableToCreateThumbnail(_) | ErrorType::UnableToCreateBlurhash(_)
            | ErrorType::DatabaseError(_, _) => 500,
            _ => 401,
        }
    }
}

impl ErrorResponder {
    /// Extract the rollback boolean value from the inner [`ErrorResponse`] struct.
    pub fn do_rollback(&self) -> (r: bool)
        ensures
            r == response_of(*self).rollback,
    {
        match self {
            ErrorResponder::BadRequest(json) => json,
            ErrorResponder::Unauthorized(json) => json,
            ErrorResponder::NotFound(json) => json,
            ErrorResponder::UnprocessableEntity(json) => json,
            ErrorResponder::InternalError(json) => json,
        }.rollback
    }

    /// The same answer, with the rollback flag replaced.
    pub fn with_rollback(self, rollback: bool) -> (r: ErrorResponder)
        ensures
            responder_status(r) == responder_status(self),
            response_of(r).error_type == response_of(self).error_type,
            response_of(r).message == response_of(self).message,
            response_of(r).rollback == rollback,
    {
        match self {
            ErrorResponder::BadRequest(x) => ErrorResponder::BadRequest(ErrorResponse { error_type: x.error_type, message: x.message, rollback }),
            ErrorResponder::Unauthorized(x) => ErrorResponder::Unauthorized(ErrorResponse { error_type: x.error_type, message: x.message, rollback }),
            ErrorResponder::NotFound(x) => ErrorResponder::NotFound(ErrorResponse { error_type: x.error_type, message: x.message, rollback }),
            ErrorResponder::UnprocessableEntity(x) => ErrorResponder::UnprocessableEntity(ErrorResponse { error_type: x.error_type, message: x.message, rollback }),
            ErrorResponder::InternalError(x) => ErrorResponder::InternalError(ErrorResponse { error_type: x.error_type, message: x.message, rollback }),
        }
    }

    /// The HTTP status of this answer.
    pub fn status(&self) -> (r: u16)
        ensures
            r == responder_status(*self),
    {
        match self {
            ErrorResponder::BadRequest(_) => 400,
            ErrorResponder::Unauthorized(_) => 401,
            ErrorResponder::NotFound(_) => 404,
            ErrorResponder::UnprocessableEntity(_) => 422,
            ErrorResponder::InternalError(_) => 500,
        }
    }

    /// The answer to a failure of the database itself, whose message is
    /// `err`: such errors always roll the transaction back.
    pub fn from_database_failure(err: String) -> (r: ErrorResponder)
        ensures
            answers_database_failure(r, err@),
    {
        ErrorType::DatabaseError(String::from_str("Diesel error"), err).res_rollback()
    }
}

pub fn bad_request() -> (r: ErrorResponder)
    ensures
        answers(r, ErrorType::BadRequest, false),
{
    ErrorType::BadRequest.res()
}

pub fn unauthorized() -> (r: ErrorResponder)
    ensures
        answers(r, ErrorType::Unauthorized, false),
{
    ErrorType::Unauthorized.res()
}

/// The answer to a request for an unknown path.
pub fn not_found(uri: String) -> (r: ErrorResponder)
    ensures
        responder_status(r) == 404,
        response_of(r).error_type == ErrorTypeKind::NotFound,
        response_of(r).message@ == "Not found: "@ + uri@,
        !response_of(r).rollback,
{
    ErrorType::NotFound(uri).res()
}

/// When a JSON value type is incorrect
pub fn unprocessable_entity() -> (r: ErrorResponder)
    ensures
        responder_status(r) == 422,
        response_of(r).error_type == ErrorTypeKind::UnprocessableEntity,
        response_of(r).message@ == "Unprocessable entity"@,
        !response_of(r).rollback,
{
    ErrorType::UnprocessableEntity(String::from_str("Unprocessable entity")).res()
}

pub fn internal_error() -> (r: ErrorResponder)
    ensures
        responder_status(r) == 500,
        response_of(r).error_type == ErrorTypeKind::InternalError,
        response_of(r).message@ == "Internal error: "@ + "Internal Error"@,
        !response_of(r).rollback,
{
    ErrorType::InternalError(String::from_str("Internal Error")).res()
}

/// Whether a transaction whose body returned `res` is rolled back: only an
/// error that asks for it is.
pub fn rolls_back<T>(res: &Result<T, ErrorResponder>) -> (r: bool)
    ensures
        r == (res matches Err(e) && response_of(*e).rollback),
{
    match res {
        Ok(_) => false,
        Err(e) => e.do_rollback(),
    }
}

/// The result of a transaction: the result of its body, unless the
/// database failed to commit or roll back, with the message `db_failure`.
pub fn err_transaction<T>(body: Result<T, ErrorResponder>, db_failure: Option<String>) -> (r: Result<T, ErrorResponder>)
    ensures
        db_failure is None ==> r == body,
        db_failure matches Some(m) ==> r matches Err(e) && answers_database_failure(e, m@),
{
    match db_failure {
        None => body,
        Some(m) => Err(ErrorResponder::from_database_failure(m)),
    }
}

} // verus!
