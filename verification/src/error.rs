//! Errors answered to API clients: an HTTP status code and a message.
use vstd::prelude::*;

verus! {

pub const STATUS_OK: u16 = 200;

pub const STATUS_CREATED: u16 = 201;

pub const STATUS_ACCEPTED: u16 = 202;

pub const STATUS_NO_CONTENT: u16 = 204;

pub const STATUS_PARTIAL_CONTENT: u16 = 206;

pub const STATUS_BAD_REQUEST: u16 = 400;

pub const STATUS_NOT_FOUND: u16 = 404;

pub const STATUS_CONFLICT: u16 = 409;

pub const STATUS_RANGE_NOT_SATISFIABLE: u16 = 416;

pub const STATUS_INTERNAL_SERVER_ERROR: u16 = 500;

/// An error answered to a client: the HTTP status and a human-readable message.
pub struct ApiError {
    pub status: u16,
    pub message: String,
}

impl ApiError {
    /// 404 with the message "`what` not found".
    pub fn not_found(what: &str) -> (e: ApiError)
        ensures
            e.status == STATUS_NOT_FOUND,
            e.message@ == what@ + " not found"@,
    {
        let mut message = String::from_str(what);
        message.append(" not found");
        ApiError { status: STATUS_NOT_FOUND, message }
    }

    /// 400 with the given message.
    pub fn bad_request(msg: String) -> (e: ApiError)
        ensures
            e.status == STATUS_BAD_REQUEST,
            e.message == msg,
    {
        ApiError { status: STATUS_BAD_REQUEST, message: msg }
    }

    /// What a failed database operation answers: 500 "database error".
    pub fn database_error() -> (e: ApiError)
        ensures
            e.status == STATUS_INTERNAL_SERVER_ERROR,
            e.message@ == "database error"@,
    {
        ApiError { status: STATUS_INTERNAL_SERVER_ERROR, message: String::from_str("database error") }
    }

    /// What a failed file operation answers: 500 "io error".
    pub fn io_error() -> (e: ApiError)
        ensures
            e.status == STATUS_INTERNAL_SERVER_ERROR,
            e.message@ == "io error"@,
    {
        ApiError { status: STATUS_INTERNAL_SERVER_ERROR, message: String::from_str("io error") }
    }
}

} // verus!
