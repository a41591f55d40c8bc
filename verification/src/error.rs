//! The library's error taxonomy and the RPC error values that cross the
//! process boundary.
use vstd::prelude::*;
use crate::numtext::dec_int;
use crate::numtext::push_dec_i64;
use crate::text::chars_to_string;
use crate::text::push_str_chars;

verus! {

/// A validation or storage failure local to this service.
#[derive(Debug, Clone)]
pub enum Error {
    /// `create` was given an empty owner string.
    EmptyOwner,
    /// A generated api token collides with an existing one.
    TokenExists,
    /// No event row carries the given api token.
    TokenNotFound,
    /// No event row has the given id.
    EventNotFound(i64),
    /// The event is open and must be closed before deletion.
    EventStillOpen(i64),
    /// A record with no fields was given to a write operation.
    EmptyRecord,
    /// A table or column name holds characters outside `[A-Za-z0-9_]`.
    BadIdentifier(String),
    /// A field value cannot be converted to a SQL parameter.
    BadValue(String),
    /// A stored event row's data blob does not decode.
    BadData(i64),
}

pub open spec fn spec_error_message(e: Error) -> Seq<char> {
    match e {
        Error::EmptyOwner => "Owner cannot be empty"@,
        Error::TokenExists => "API token already exists"@,
        Error::TokenNotFound => "API token not found"@,
        Error::EventNotFound(id) => "Event id: "@ + dec_int(id as int) + " not found"@,
        Error::EventStillOpen(id) => "Event id: "@ + dec_int(id as int)
            + " is open, close it first"@,
        Error::EmptyRecord => "No fields to update"@,
        Error::BadIdentifier(s) => "Invalid identifier: "@ + s@,
        Error::BadValue(s) => "Unsupported value type for field "@ + s@,
        Error::BadData(id) => "Event id: "@ + dec_int(id as int) + " has malformed data"@,
    }
}

impl Error {
    /// A human-readable description of the failure.
    pub fn message(&self) -> (s: String)
        ensures
            s@ == spec_error_message(*self),
    {
        let mut out: Vec<char> = Vec::new();
        match self {
            Error::EmptyOwner => push_str_chars(&mut out, "Owner cannot be empty"),
            Error::TokenExists => push_str_chars(&mut out, "API token already exists"),
            Error::TokenNotFound => push_str_chars(&mut out, "API token not found"),
            Error::EventNotFound(id) => {
                push_str_chars(&mut out, "Event id: ");
                push_dec_i64(&mut out, *id);
                push_str_chars(&mut out, " not found");
            },
            Error::EventStillOpen(id) => {
                push_str_chars(&mut out, "Event id: ");
                push_dec_i64(&mut out, *id);
                push_str_chars(&mut out, " is open, close it first");
            },
            Error::EmptyRecord => push_str_chars(&mut out, "No fields to update"),
            Error::BadIdentifier(s) => {
                push_str_chars(&mut out, "Invalid identifier: ");
                push_str_chars(&mut out, s.as_str());
            },
            Error::BadValue(s) => {
                push_str_chars(&mut out, "Unsupported value type for field ");
                push_str_chars(&mut out, s.as_str());
            },
            Error::BadData(id) => {
                push_str_chars(&mut out, "Event id: ");
                push_dec_i64(&mut out, *id);
                push_str_chars(&mut out, " has malformed data");
            },
        }
        assert(out@ =~= spec_error_message(*self));
        chars_to_string(&out)
    }
}

/// The standard RPC error codes of the wire protocol.
#[derive(Debug, Clone, Copy, PartialEq, Eq, Structural)]
pub enum RpcErrorCode {
    NoError,
    InvalidRequest,
    MethodNotFound,
    InvalidParam,
    InternalError,
    ParseError,
    MethodCallTimeout,
    MethodCallCancelled,
    MethodCallException,
    PermissionDenied,
    LoginRequired,
    UserIDRequired,
    NotImplemented,
    TryAgainLater,
    AbortRequestInvalid,
}

impl RpcErrorCode {
    /// The numeric code of the wire protocol.
    pub fn code_num(&self) -> (n: u8)
        ensures
            n == spec_code_num(*self),
    {
        match self {
            RpcErrorCode::NoError => 0,
            RpcErrorCode::InvalidRequest => 1,
            RpcErrorCode::MethodNotFound => 2,
            RpcErrorCode::InvalidParam => 3,
            RpcErrorCode::InternalError => 4,
            RpcErrorCode::ParseError => 5,
            RpcErrorCode::MethodCallTimeout => 6,
            RpcErrorCode::MethodCallCancelled => 7,
            RpcErrorCode::MethodCallException => 8,
            RpcErrorCode::PermissionDenied => 9,
            RpcErrorCode::LoginRequired => 10,
            RpcErrorCode::UserIDRequired => 11,
            RpcErrorCode::NotImplemented => 12,
            RpcErrorCode::TryAgainLater => 13,
            RpcErrorCode::AbortRequestInvalid => 14,
        }
    }
}

pub open spec fn spec_code_num(c: RpcErrorCode) -> u8 {
    match c {
        RpcErrorCode::NoError => 0,
        RpcErrorCode::InvalidRequest => 1,
        RpcErrorCode::MethodNotFound => 2,
        RpcErrorCode::InvalidParam => 3,
        RpcErrorCode::InternalError => 4,
        RpcErrorCode::ParseError => 5,
        RpcErrorCode::MethodCallTimeout => 6,
        RpcErrorCode::MethodCallCancelled => 7,
        RpcErrorCode::MethodCallException => 8,
        RpcErrorCode::PermissionDenied => 9,
        RpcErrorCode::LoginRequired => 10,
        RpcErrorCode::UserIDRequired => 11,
        RpcErrorCode::NotImplemented => 12,
        RpcErrorCode::TryAgainLater => 13,
        RpcErrorCode::AbortRequestInvalid => 14,
    }
}

/// A typed error answered to an RPC caller: a stable code and a message.
#[derive(Debug, Clone)]
pub struct RpcError {
    pub code: RpcErrorCode,
    pub message: String,
}

impl RpcError {
    pub fn new(code: RpcErrorCode, message: String) -> (r: RpcError)
        ensures
            r.code == code,
            r.message@ == message@,
    {
        RpcError { code, message }
    }

    /// Wraps a local failure the way every handler reports one: as a
    /// method-call exception whose message names the cause.
    pub fn from_error(e: &Error) -> (r: RpcError)
        ensures
            r.code == RpcErrorCode::MethodCallException,
            r.message@ == "Error: "@ + spec_error_message(*e),
    {
        let mut out: Vec<char> = Vec::new();
        push_str_chars(&mut out, "Error: ");
        push_str_chars(&mut out, e.message().as_str());
        RpcError { code: RpcErrorCode::MethodCallException, message: chars_to_string(&out) }
    }
}

} // verus!
