//! The authenticated session's decision logic: the exact login form and the
//! status rule that every endpoint shares. Success of a call is decided by
//! the response status alone being in the success range; the HTTP transport
//! itself stays outside the library.
use vstd::prelude::*;

verus! {

/// The failure kinds of session operations.
#[derive(Debug, Clone, PartialEq, Eq)]
pub enum AuthenticationError {
    /// The response body could not be decoded as text.
    NotAText,
    /// The HTTP client could not be constructed.
    ClientCreation,
    /// The request to `url` failed.
    Request { url: String },
    /// The response carried a non-success status.
    ErrorCode { code: u16 },
}

/// Whether an HTTP status lies in the success range.
pub open spec fn is_success_status(code: u16) -> bool {
    200 <= code < 300
}

/// The login form: exactly the `username` and `password` fields, in that
/// order, with the given values.
pub fn login_form(username: &str, password: &str) -> (r: Vec<(String, String)>)
    ensures
        r@.len() == 2,
        r@[0].0@ == "username"@ && r@[0].1@ == username@,
        r@[1].0@ == "password"@ && r@[1].1@ == password@,
{
    let mut form: Vec<(String, String)> = Vec::new();
    form.push(("username".to_owned(), username.to_owned()));
    form.push(("password".to_owned(), password.to_owned()));
    form
}

/// The status stage every read shares: a success status is required
/// before the body is decoded; anything else is the status error carrying
/// the code.
pub fn require_success(code: u16) -> (r: Result<(), AuthenticationError>)
    ensures
        r is Ok <==> is_success_status(code),
        r matches Err(e) ==> e == (AuthenticationError::ErrorCode { code }),
{
    if 200 <= code && code < 300 {
        Ok(())
    } else {
        Err(AuthenticationError::ErrorCode { code })
    }
}

/// Decides login from the response status alone: the success range means a
/// logged-in session, anything else is the status error carrying the code.
/// The response body is not inspected and no authenticated marker is
/// required, so a success status on an unauthenticated exchange is
/// accepted; the service documents no marker a stricter rule could demand.
pub fn login_outcome(code: u16) -> (r: Result<(), AuthenticationError>)
    ensures
        r is Ok <==> is_success_status(code),
        r matches Err(e) ==> e == (AuthenticationError::ErrorCode { code }),
{
    require_success(code)
}

/// Decides a page fetch from its status and body: a success status yields
/// the body text, anything else the status error carrying the code.
pub fn fetch_text_outcome(code: u16, body: String) -> (r: Result<String, AuthenticationError>)
    ensures
        r is Ok <==> is_success_status(code),
        r matches Ok(t) ==> t == body,
        r matches Err(e) ==> e == (AuthenticationError::ErrorCode { code }),
{
    if 200 <= code && code < 300 {
        Ok(body)
    } else {
        Err(AuthenticationError::ErrorCode { code })
    }
}

} // verus!
