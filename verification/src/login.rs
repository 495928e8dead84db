//! What the login page is given: the URL that starts a login, and the name
//! of the user who is logged in already.

use vstd::prelude::*;
use vstd::string::*;
use crate::errors::AppError;

verus! {

/// What the login page shows.
#[derive(Debug, PartialEq, Eq)]
pub struct LoginInfo {
    /// The name of the user who is logged in, if one is.
    pub user: Option<String>,
    /// The URL that starts a login.
    pub url: String,
}

/// The name shown for a user: the display name, or a stand-in where the
/// profile has none.
pub open spec fn spec_shown_name(display_name: Option<Seq<char>>) -> Seq<char> {
    match display_name {
        Some(name) => name,
        None => "Unknown User"@,
    }
}

/// The name shown for a user.
pub fn shown_name(display_name: Option<String>) -> (name: String)
    ensures
        name@ == spec_shown_name(display_name.deep_view()),
{
    match display_name {
        Some(name) => name,
        None => String::from_str("Unknown User"),
    }
}

/// Puts together what the login page shows, from the authorization URL, if
/// one could be built, and the profile of the current user, if there is
/// one: `profile` is `None` for a visitor, and holds the display name, which
/// may be missing, for a user. Without a URL there is nothing to show.
pub fn login_info(url: Option<String>, profile: Option<Option<String>>) -> (info: Result<
    LoginInfo,
    AppError,
>)
    ensures
        match url {
            None => info is Err && info->Err_0 is Authentication
                && info->Err_0->Authentication_0@ == "Authorization URL Error"@,
            Some(link) => {
                &&& info is Ok
                &&& info->Ok_0.url@ == link@
                &&& match profile {
                    None => info->Ok_0.user is None,
                    Some(display_name) => info->Ok_0.user is Some && info->Ok_0.user->0@
                        == spec_shown_name(display_name.deep_view()),
                }
            },
        },
{
    match url {
        None => Err(AppError::Authentication(String::from_str("Authorization URL Error"))),
        Some(link) => {
            let user = match profile {
                None => None,
                Some(display_name) => Some(shown_name(display_name)),
            };
            Ok(LoginInfo { user, url: link })
        },
    }
}

} // verus!
