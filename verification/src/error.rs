//! Typed protocol errors: every failing operation names an HTTP status, a
//! machine-readable short code and a human-readable summary, rendered by the
//! transport layer as a small XML error document.

use vstd::prelude::*;
use vstd::string::StringExecFns;

verus! {

/// A protocol-level error response.
#[derive(Debug)]
pub struct ApiError {
    /// HTTP status the error is served with.
    pub http_status: u16,
    /// Machine-readable short code.
    pub code: String,
    /// Human-readable summary.
    pub summary: String,
}

impl ApiError {
    pub fn new(http_status: u16, code: String, summary: String) -> (r: ApiError)
        ensures
            r.http_status == http_status,
            r.code == code,
            r.summary == summary,
    {
        ApiError { http_status, code, summary }
    }
}

/// Error for a project name the registry does not know.
pub fn unknown_project(project: &str) -> (r: ApiError)
    ensures
        r.http_status == 404,
        r.code@ == "unknown_project"@,
        r.summary@ == project@,
{
    ApiError::new(404, String::from_str("unknown_project"), String::from_str(project))
}

/// Error for a request whose credentials do not match the configured pair.
pub fn unauthorized() -> (r: ApiError)
    ensures
        r.http_status == 401,
        r.code@ == "authentication_required"@,
        r.summary@ == "Authentication required"@,
{
    ApiError::new(
        401,
        String::from_str("authentication_required"),
        String::from_str("Authentication required"),
    )
}

/// Error for a query parameter no operation knows.
pub fn unknown_parameter(param: &str) -> (r: ApiError)
    ensures
        r.http_status == 400,
        r.code@ == "400"@,
        r.summary@ == "unknown parameter '"@ + param@ + "'"@,
{
    let summary = String::from_str("unknown parameter '").concat(param).concat("'");
    ApiError::new(400, String::from_str("400"), summary)
}

/// Error for an operation the emulation knows but does not model.
pub fn unsupported_operation() -> (r: ApiError)
    ensures
        r.http_status == 421,
        r.code@ == "unsupported"@,
        r.summary@ == "Operation not supported by the OBS mock server"@,
{
    ApiError::new(
        421,
        String::from_str("unsupported"),
        String::from_str("Operation not supported by the OBS mock server"),
    )
}

} // verus!
