//! What an account response means for a login.

use serde_json::Value;
use vstd::prelude::*;

verus! {

/// A Things Cloud account that can be used.
#[derive(Debug)]
pub struct Account {
    pub email: String,
    pub maildrop_email: String,
    /// The key under which the server keeps the account's history.
    pub history_key: String,
}

/// The status that the server gives an account.
#[derive(Debug)]
pub enum Status {
    Active,
    Other(String),
}

/// What the server answers to a login.
#[derive(Debug)]
pub struct AccountApiResponse {
    pub status: Status,
    pub sla_version: String,
    pub email: String,
    pub history_key: String,
    pub maildrop_email: String,
    /// What stands against the use of the account; empty where nothing does.
    pub issues: Vec<Value>,
}

/// Why a login fails.
#[derive(Debug)]
pub enum Error {
    /// The provided credentials are invalid
    InvalidCredentials,
    /// The account cannot be used with Things Cloud
    AccountHasIssues(Vec<Value>),
    /// The account has an unknown status
    UnknownAccountStatus(String),
    /// An error occurred while communicating with the Things Cloud API;
    /// the text says which.
    Reqwest(String),
}

/// The HTTP status with which the server refuses the credentials.
pub const UNAUTHORIZED: u16 = 401;

/// Whether a character may stand in the value of an HTTP header: the tab,
/// and every character from the space on but the delete character.
pub open spec fn header_char(c: char) -> bool {
    c == '\t' || (c as u32 >= 32 && c as u32 != 127)
}

/// Whether a text may be the value of an HTTP header.
pub open spec fn header_text(text: Seq<char>) -> bool {
    forall|i: int| 0 <= i < text.len() ==> header_char(#[trigger] text[i])
}

/// `HeaderValue::from_str` of `http`, which `reqwest` hands on: it accepts a
/// text if each of its bytes is the tab or at least 32 and not 127. The bytes
/// of a character beyond ASCII are all above 127, so this is `header_text`.
#[verifier::external_body]
pub(crate) fn header_value_accepts(text: &str) -> (accepted: bool)
    ensures
        accepted == header_text(text@),
{
    reqwest::header::HeaderValue::from_str(text).is_ok()
}

/// The address from which the server answers for the account of `email`.
pub open spec fn account_url(email: Seq<char>) -> Seq<char> {
    "https://cloud.culturedcode.com/version/1/account/"@ + email
}

impl Account {
    /// The address to request for a login with `email`.
    pub fn login_url(email: &str) -> (url: String)
        ensures
            url@ == account_url(email@),
    {
        String::from_str("https://cloud.culturedcode.com/version/1/account/").concat(email)
    }

    /// The value of the `Authorization` header for a password. A password
    /// that cannot stand in a header is refused as invalid credentials.
    pub fn authorization(password: &str) -> (result: Result<String, Error>)
        ensures
            header_text(password@) ==> result is Ok && result->Ok_0@ == "Password "@ + password@,
            !header_text(password@) ==> result == Err::<String, Error>(Error::InvalidCredentials),
    {
        let value = String::from_str("Password ").concat(password);
        proof {
            reveal_strlit("Password ");
            let prefix = "Password "@;
            if header_text(password@) {
                assert forall|i: int| 0 <= i < value@.len() implies header_char(
                    #[trigger] value@[i],
                ) by {
                    if i >= prefix.len() {
                        assert(value@[i] == password@[i - prefix.len()]);
                    }
                }
            }
            if header_text(value@) {
                assert forall|i: int| 0 <= i < password@.len() implies header_char(
                    #[trigger] password@[i],
                ) by {
                    assert(password@[i] == value@[i + prefix.len()]);
                }
            }
        }
        if header_value_accepts(value.as_str()) {
            Ok(value)
        } else {
            Err(Error::InvalidCredentials)
        }
    }

    /// Whether the HTTP status of the answer lets the login go on: the server
    /// refuses wrong credentials with the status `UNAUTHORIZED`.
    pub fn check_status(code: u16) -> (result: Result<(), Error>)
        ensures
            code == UNAUTHORIZED ==> result == Err::<(), Error>(Error::InvalidCredentials),
            code != UNAUTHORIZED ==> result is Ok,
    {
        if code == UNAUTHORIZED {
            Err(Error::InvalidCredentials)
        } else {
            Ok(())
        }
    }

    /// The account that a decoded answer stands for. An answer with issues
    /// fails with them, whatever its status; one without issues whose status
    /// is not the active one fails with that status.
    pub fn from_response(response: AccountApiResponse) -> (result: Result<Account, Error>)
        ensures
            response.issues@.len() > 0 ==> result == Err::<Account, Error>(
                Error::AccountHasIssues(response.issues),
            ),
            response.issues@.len() == 0 ==> match response.status {
                Status::Active => result == Ok::<Account, Error>(
                    Account {
                        email: response.email,
                        maildrop_email: response.maildrop_email,
                        history_key: response.history_key,
                    },
                ),
                Status::Other(name) => result == Err::<Account, Error>(
                    Error::UnknownAccountStatus(name),
                ),
            },
    {
        if response.issues.len() > 0 {
            return Err(Error::AccountHasIssues(response.issues));
        }
        match response.status {
            Status::Active => Ok(
                Account {
                    email: response.email,
                    maildrop_email: response.maildrop_email,
                    history_key: response.history_key,
                },
            ),
            Status::Other(name) => Err(Error::UnknownAccountStatus(name)),
        }
    }
}

} // verus!
