//! The checks the HTTP endpoints make before they touch the database.

use vstd::prelude::*;

use crate::protocol::{spec_valid_ident, valid_name, MAX_NAME_LEN};
use crate::text::{trim_str, trimmed, utf8_len_at_least};
use vstd::utf8::encode_utf8;

verus! {

pub open spec fn bad_name_text() -> Seq<char> {
    "Name must be 1-24 letters, numbers, - or _."@
}

pub open spec fn short_password_text() -> Seq<char> {
    "Password must be at least 3 characters."@
}

pub open spec fn invalid_name_text() -> Seq<char> {
    "Invalid name."@
}

/// Shortest password accepted, in bytes of UTF-8.
pub const MIN_PASSWORD_LEN: usize = 3;

/// The trimmed password of a request; no password counts as an empty one.
pub open spec fn given_password(password: Option<Seq<char>>) -> Seq<char> {
    match password {
        Some(p) => trimmed(p),
        None => Seq::empty(),
    }
}

pub open spec fn opt_view(s: Option<&str>) -> Option<Seq<char>> {
    match s {
        Some(p) => Some(p@),
        None => None,
    }
}

fn trimmed_password(password: Option<&str>) -> (r: String)
    ensures
        r@ == given_password(opt_view(password)),
{
    match password {
        Some(p) => trim_str(p),
        None => String::new(),
    }
}

/// Checks a registration request: the trimmed name and password, or the reason
/// it is refused.
pub fn check_registration(name: &str, password: Option<&str>) -> (r: Result<(String, String), String>)
    ensures
        match r {
            Ok((n, p)) => {
                &&& spec_valid_ident(trimmed(name@), MAX_NAME_LEN as int)
                &&& encode_utf8(given_password(opt_view(password))).len() >= MIN_PASSWORD_LEN
                &&& n@ == trimmed(name@)
                &&& p@ == given_password(opt_view(password))
            },
            Err(e) => if !spec_valid_ident(trimmed(name@), MAX_NAME_LEN as int) {
                e@ == bad_name_text()
            } else {
                encode_utf8(given_password(opt_view(password))).len() < MIN_PASSWORD_LEN && e@
                    == short_password_text()
            },
        },
{
    let n = trim_str(name);
    let p = trimmed_password(password);
    if !valid_name(n.as_str()) {
        return Err("Name must be 1-24 letters, numbers, - or _.".to_owned());
    }
    if !utf8_len_at_least(p.as_str(), MIN_PASSWORD_LEN) {
        return Err("Password must be at least 3 characters.".to_owned());
    }
    Ok((n, p))
}

/// Checks a sign-in request: the trimmed name and password, or why it is refused.
pub fn check_login(name: &str, password: Option<&str>) -> (r: Result<(String, String), String>)
    ensures
        match r {
            Ok((n, p)) => {
                &&& spec_valid_ident(trimmed(name@), MAX_NAME_LEN as int)
                &&& n@ == trimmed(name@)
                &&& p@ == given_password(opt_view(password))
            },
            Err(e) => !spec_valid_ident(trimmed(name@), MAX_NAME_LEN as int) && e@ == invalid_name_text(),
        },
{
    let n = trim_str(name);
    let p = trimmed_password(password);
    if !valid_name(n.as_str()) {
        return Err("Invalid name.".to_owned());
    }
    Ok((n, p))
}

/// Why a WebSocket sign-in is turned away before its token is looked up.
#[derive(Debug, PartialEq, Eq)]
pub enum WsLoginError {
    /// Answered with `400 Bad Request`, "invalid name".
    InvalidName,
    /// Answered with `401 Unauthorized`, "token required".
    TokenRequired,
}

/// Checks a WebSocket sign-in: the trimmed name and token to verify, or why it
/// is turned away.
pub fn check_ws_login(name: &str, token: Option<&str>) -> (r: Result<(String, String), WsLoginError>)
    ensures
        match r {
            Ok((n, t)) => {
                &&& spec_valid_ident(trimmed(name@), MAX_NAME_LEN as int)
                &&& token is Some
                &&& n@ == trimmed(name@)
                &&& t@ == trimmed(token.unwrap()@)
            },
            Err(WsLoginError::InvalidName) => !spec_valid_ident(trimmed(name@), MAX_NAME_LEN as int),
            Err(WsLoginError::TokenRequired) => spec_valid_ident(trimmed(name@), MAX_NAME_LEN as int)
                && token is None,
        },
{
    let n = trim_str(name);
    if !valid_name(n.as_str()) {
        return Err(WsLoginError::InvalidName);
    }
    match token {
        Some(t) => Ok((n, trim_str(t))),
        None => Err(WsLoginError::TokenRequired),
    }
}

} // verus!
