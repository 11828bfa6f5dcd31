//! What the login flow exchanges with the browser: the query that brings a
//! visitor to the login page, and the form they send back.

use vstd::prelude::*;

verus! {

/// Query parameters of the login page: where to go after a successful
/// login, and the message of a failed attempt.
pub struct LoginQuery {
    pub redir_to: Option<String>,
    pub err_msg: Option<String>,
}

/// The login form's fields.
pub struct LoginParams {
    pub username: String,
    pub password: String,
    pub redir_to: Option<String>,
}

} // verus!
