//! Error taxonomy of the validation pipeline and the provisioning tool.
//! Every rejection is final: a rejected token is never revalidated.

use vstd::prelude::*;

verus! {

/// Why a token was rejected or a subsystem step failed.
#[derive(Clone, Copy, Debug, PartialEq, Eq, Structural)]
pub enum ErrorKind {
    StructureError,
    DecodeError,
    SchemaError,
    MissingClaim,
    UnsupportedAlgorithm,
    SignatureMismatch,
    Expired,
    IssuedInFuture,
    LifespanExceeded,
    InvalidJti,
    ReplayDetected,
    KeyFileError,
    KeyFormatError,
    PinValidation,
    KeyDerivation,
    Permission,
    InternalError,
}

/// The taxonomy name of an error, as written into a response's code
/// field.
pub open spec fn spec_code(e: ErrorKind) -> Seq<char> {
    match e {
        ErrorKind::StructureError => "StructureError"@,
        ErrorKind::DecodeError => "DecodeError"@,
        ErrorKind::SchemaError => "SchemaError"@,
        ErrorKind::MissingClaim => "MissingClaim"@,
        ErrorKind::UnsupportedAlgorithm => "UnsupportedAlgorithm"@,
        ErrorKind::SignatureMismatch => "SignatureMismatch"@,
        ErrorKind::Expired => "Expired"@,
        ErrorKind::IssuedInFuture => "IssuedInFuture"@,
        ErrorKind::LifespanExceeded => "LifespanExceeded"@,
        ErrorKind::InvalidJti => "InvalidJti"@,
        ErrorKind::ReplayDetected => "ReplayDetected"@,
        ErrorKind::KeyFileError => "KeyFileError"@,
        ErrorKind::KeyFormatError => "KeyFormatError"@,
        ErrorKind::PinValidation => "PinValidation"@,
        ErrorKind::KeyDerivation => "KeyDerivation"@,
        ErrorKind::Permission => "Permission"@,
        ErrorKind::InternalError => "InternalError"@,
    }
}

impl ErrorKind {
    /// The taxonomy name of this error, for a response's code field.
    pub fn code(&self) -> (r: String)
        ensures
            r@ == spec_code(*self),
    {
        match self {
            ErrorKind::StructureError => "StructureError".to_owned(),
            ErrorKind::DecodeError => "DecodeError".to_owned(),
            ErrorKind::SchemaError => "SchemaError".to_owned(),
            ErrorKind::MissingClaim => "MissingClaim".to_owned(),
            ErrorKind::UnsupportedAlgorithm => "UnsupportedAlgorithm".to_owned(),
            ErrorKind::SignatureMismatch => "SignatureMismatch".to_owned(),
            ErrorKind::Expired => "Expired".to_owned(),
            ErrorKind::IssuedInFuture => "IssuedInFuture".to_owned(),
            ErrorKind::LifespanExceeded => "LifespanExceeded".to_owned(),
            ErrorKind::InvalidJti => "InvalidJti".to_owned(),
            ErrorKind::ReplayDetected => "ReplayDetected".to_owned(),
            ErrorKind::KeyFileError => "KeyFileError".to_owned(),
            ErrorKind::KeyFormatError => "KeyFormatError".to_owned(),
            ErrorKind::PinValidation => "PinValidation".to_owned(),
            ErrorKind::KeyDerivation => "KeyDerivation".to_owned(),
            ErrorKind::Permission => "Permission".to_owned(),
            ErrorKind::InternalError => "InternalError".to_owned(),
        }
    }
}

/// How a rejection maps onto a response: authentication failures, claim
/// range violations, and failures of the server's own machinery.
#[derive(Clone, Copy, Debug, PartialEq, Eq, Structural)]
pub enum StatusClass {
    Unauthorized,
    BadRequest,
    ServerError,
}

/// Errors of the offline key-provisioning tool.
#[derive(Debug, PartialEq, Eq)]
pub enum GpsJwtPinError {
    PinValidation(String),
    KeyDerivation(String),
    FileIo(String),
    Config(String),
    DaemonConfig(String),
    Permission(String),
}

/// Errors of the coordinate log writer.
#[derive(Debug, PartialEq, Eq)]
pub enum GpsLoggerError {
    FileCreationError(String),
    WriteError(String),
    SerializationError(String),
    NoCurrentEntry,
    LoggingDisabled,
}

} // verus!
