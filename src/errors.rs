//! Error kinds of the server and of request decoding.
use vstd::prelude::*;

verus! {

/// Why a request datagram was refused.
#[derive(Clone, Copy, Debug, PartialEq, Eq, Structural)]
pub enum RequestError {
    TooShort,
    BadOpCode(u16),
    MissingFilename,
    MissingMode,
    BadMode,
    BadDigit(u8),
    NumberOutOfRange,
    MissingArgument,
    MissingZero,
    WriteUnsupported,
    OperationUnsupported,
    ModeUnsupported,
    MalformedAck,
}

pub type RequestResult<T> = core::result::Result<T, RequestError>;

impl RequestError {
    /// The text sent to the peer in an ERROR datagram (without the numbers
    /// that some variants carry).
    pub fn message(&self) -> (r: &'static str)
        ensures
            r == request_error_str(*self),
    {
        match self {
            RequestError::TooShort => "datagram too short",
            RequestError::BadOpCode(_) => "bad op code",
            RequestError::MissingFilename => "filename missing",
            RequestError::MissingMode => "mode missing",
            RequestError::BadMode => "unsupported mode",
            RequestError::BadDigit(_) => "not a digit",
            RequestError::NumberOutOfRange => "number out of range",
            RequestError::MissingArgument => "missing argument",
            RequestError::MissingZero => "datagram without trailing zero",
            RequestError::WriteUnsupported => "write operation not implemented",
            RequestError::OperationUnsupported => "operation not supported",
            RequestError::ModeUnsupported => "transfer mode not supported; only 'octet' is supported",
            RequestError::MalformedAck => "malformed ACK",
        }
    }
}

pub open spec fn request_error_str(e: RequestError) -> &'static str {
    match e {
        RequestError::TooShort => "datagram too short",
        RequestError::BadOpCode(_) => "bad op code",
        RequestError::MissingFilename => "filename missing",
        RequestError::MissingMode => "mode missing",
        RequestError::BadMode => "unsupported mode",
        RequestError::BadDigit(_) => "not a digit",
        RequestError::NumberOutOfRange => "number out of range",
        RequestError::MissingArgument => "missing argument",
        RequestError::MissingZero => "datagram without trailing zero",
        RequestError::WriteUnsupported => "write operation not implemented",
        RequestError::OperationUnsupported => "operation not supported",
        RequestError::ModeUnsupported => "transfer mode not supported; only 'octet' is supported",
        RequestError::MalformedAck => "malformed ACK",
    }
}

/// The text of an ERROR datagram that reports `e`.
pub open spec fn error_str(e: Error) -> &'static str {
    match e {
        Error::RequestError(r) => request_error_str(r),
        Error::InvalidPathName => "invalid pathname",
        Error::StringConversion => "string conversion error",
        Error::UriParse => "failed to parse uri",
        Error::FileMissing => "file is missing",
        Error::Internal(_) => "internal error",
        Error::Timeout => "timeout",
        Error::BadAck => "bad ack package",
        Error::Protocol(_) => "generic protocol error",
        Error::NotImplemented => "operation not implemented",
        Error::TooMuchClients => "too much clients",
        Error::BadHttpTime => "bad http time",
        Error::HttpStatus(_) => "request failed",
        Error::OutOfBounds => "file out-of-bound read",
    }
}

/// Errors of the server, of its sessions and of the content cache.
#[derive(Clone, Copy, Debug, PartialEq, Eq)]
pub enum Error {
    RequestError(RequestError),
    InvalidPathName,
    StringConversion,
    UriParse,
    FileMissing,
    Internal(&'static str),
    Timeout,
    BadAck,
    Protocol(&'static str),
    NotImplemented,
    TooMuchClients,
    BadHttpTime,
    HttpStatus(u16),
    OutOfBounds,
}

pub type Result<T> = core::result::Result<T, Error>;

/// The TFTP error code reported to the peer for an error.
pub open spec fn tftp_code(e: Error) -> u16 {
    match e {
        Error::TooMuchClients => 4,
        Error::RequestError(_) => 4,
        Error::FileMissing => 1,
        _ => 0,
    }
}

impl Error {
    /// The TFTP error code of an ERROR datagram that reports `self`.
    pub fn tftp_error_code(&self) -> (r: u16)
        ensures
            r == tftp_code(*self),
    {
        match self {
            Error::TooMuchClients => 4,
            Error::RequestError(_) => 4,
            Error::FileMissing => 1,
            _ => 0,
        }
    }

    /// The text sent to the peer in an ERROR datagram; errors that could
    /// reveal details of the server or of an origin get a fixed text.
    pub fn message(&self) -> (r: &'static str)
        ensures
            r == error_str(*self),
    {
        match self {
            Error::RequestError(e) => e.message(),
            Error::InvalidPathName => "invalid pathname",
            Error::StringConversion => "string conversion error",
            Error::UriParse => "failed to parse uri",
            Error::FileMissing => "file is missing",
            Error::Internal(_) => "internal error",
            Error::Timeout => "timeout",
            Error::BadAck => "bad ack package",
            Error::Protocol(_) => "generic protocol error",
            Error::NotImplemented => "operation not implemented",
            Error::TooMuchClients => "too much clients",
            Error::BadHttpTime => "bad http time",
            Error::HttpStatus(_) => "request failed",
            Error::OutOfBounds => "file out-of-bound read",
        }
    }
}

} // verus!
