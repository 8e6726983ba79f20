//! Outcome of a single HTTP exchange.
//!
//! The request executor performs one exchange and reduces whatever came
//! back — a response with a status code, or a transport-level error — to a
//! `RequestResult`. The network call itself happens outside the library;
//! the classification of its outcome is verified here.

use vstd::prelude::*;

verus! {

/// The normalized record of one dispatched request.
///
/// Exactly one such record is produced per dispatched request. `success`
/// is true iff the exchange completed and the status was in the 2xx range;
/// a transport-level failure carries an error message and no status code.
/// Durations are wall-clock nanoseconds.
pub struct RequestResult {
    pub success: bool,
    pub status_code: Option<u16>,
    pub duration_ns: u64,
    pub error: Option<String>,
}

/// The HTTP method of one exchange.
#[derive(PartialEq, Eq, Structural, Clone, Copy, Debug)]
pub enum RequestMethod {
    Get,
    Post,
}

/// Method selection: POST exactly when a request body is provided,
/// otherwise GET.
pub fn select_method(has_body: bool) -> (m: RequestMethod)
    ensures
        m == (if has_body {
            RequestMethod::Post
        } else {
            RequestMethod::Get
        }),
{
    if has_body {
        RequestMethod::Post
    } else {
        RequestMethod::Get
    }
}

/// A status code counts as a success exactly when it is in the 2xx range.
pub open spec fn is_success_status(code: u16) -> bool {
    200 <= code < 300
}

/// Well-formedness of a result record: a successful record has a 2xx
/// status and no error; a completed-but-failed exchange has a non-2xx
/// status and no error; a transport failure has no status and an error.
pub open spec fn result_wf(r: RequestResult) -> bool {
    &&& r.success ==> r.status_code is Some && is_success_status(r.status_code->0)
        && r.error is None
    &&& r.status_code is Some ==> r.error is None
        && r.success == is_success_status(r.status_code->0)
    &&& r.status_code is None ==> !r.success && r.error is Some
}

impl RequestResult {
    /// Classify a completed exchange: the response's status code decides
    /// success, and no error message is recorded.
    pub fn from_response(status: u16, duration_ns: u64) -> (r: RequestResult)
        ensures
            r.success == is_success_status(status),
            r.status_code == Some(status),
            r.duration_ns == duration_ns,
            r.error is None,
            result_wf(r),
    {
        RequestResult {
            success: 200 <= status && status < 300,
            status_code: Some(status),
            duration_ns,
            error: None,
        }
    }

    /// Classify a transport-level failure (connect error, timeout, TLS or
    /// protocol error): never a success, no status code, the message kept.
    pub fn from_error(message: String, duration_ns: u64) -> (r: RequestResult)
        ensures
            !r.success,
            r.status_code is None,
            r.duration_ns == duration_ns,
            r.error == Some(message),
            result_wf(r),
    {
        RequestResult { success: false, status_code: None, duration_ns, error: Some(message) }
    }
}

} // verus!
