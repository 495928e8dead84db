//! Errors that reach the user, and the response status that goes with each.

use vstd::prelude::*;
use vstd::string::*;

verus! {

/// An error shown to the user.
#[derive(Debug, PartialEq, Eq)]
pub enum AppError {
    /// The page does not exist.
    NotFound,
    /// Logging in failed, for the reason given.
    Authentication(String),
}

impl AppError {
    /// The HTTP status that answers each error: 404 for a page that does not
    /// exist, 400 for a failed login.
    pub open spec fn spec_status_code(&self) -> u16 {
        match self {
            AppError::NotFound => 404,
            AppError::Authentication(_) => 400,
        }
    }

    /// The text shown for each error.
    pub open spec fn spec_message(&self) -> Seq<char> {
        match self {
            AppError::NotFound => "Not Found"@,
            AppError::Authentication(reason) => "Failure to authenticate: "@ + reason@ + "."@,
        }
    }

    /// The HTTP status that answers this error.
    pub fn status_code(&self) -> (code: u16)
        ensures
            code == self.spec_status_code(),
    {
        match self {
            AppError::NotFound => 404,
            AppError::Authentication(_) => 400,
        }
    }

    /// The text shown for this error.
    pub fn message(&self) -> (text: String)
        ensures
            text@ == self.spec_message(),
    {
        match self {
            AppError::NotFound => String::from_str("Not Found"),
            AppError::Authentication(reason) => {
                let mut text = String::from_str("Failure to authenticate: ");
                text.append(reason.as_str());
                text.append(".");
                text
            },
        }
    }
}

/// The status of a response that reports several errors: that of the first,
/// and none where there is no error.
pub fn first_status(errors: &Vec<AppError>) -> (code: Option<u16>)
    ensures
        errors.len() == 0 ==> code is None,
        errors.len() > 0 ==> code == Some(errors[0].spec_status_code()),
{
    if errors.len() == 0 {
        None
    } else {
        Some(errors[0].status_code())
    }
}

} // verus!
