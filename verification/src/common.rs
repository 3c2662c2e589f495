//! Account helpers around the engine: the cached current user, the
//! stored API token, and password validation.
//!
//! Browser local storage is the only outside dependency here; what it
//! returns depends on the environment, so the verified functions state
//! what holds of every outcome.

use vstd::prelude::*;
use crate::session::Identity;

verus! {

/// An error surfaced to the caller: a failed input validation or a
/// plain-text failure of some other kind.
pub enum ErrorKind {
    ValidationError(String),
    OtherError(String),
}

/// The usual result type of these helpers.
pub type BasicResult<T, E = ErrorKind> = Result<T, E>;

/// The signed-in user, as the application caches it between pages.
pub struct CurrentUser {
    pub id: i64,
    pub kind: String,
    pub email: String,
    pub name: Option<String>,
    pub mobile: Option<String>,
    pub laston: Option<String>,
    pub created_at: String,
    pub updated_at: Option<String>,
    pub expire_at: String,
}

/// The identity the engine runs under: the user's name where one is
/// set, the email otherwise, serving as both session id and display
/// name.
pub fn identity_of(user: &CurrentUser) -> (r: Identity)
    ensures
        r.session_id@ == match user.name {
            Some(ref n) => n@,
            None => user.email@,
        },
        r.display_name@ == match user.name {
            Some(ref n) => n@,
            None => user.email@,
        },
{
    let base = match user.name {
        Some(ref n) => n.clone(),
        None => user.email.clone(),
    };
    Identity { session_id: base.clone(), display_name: base }
}

/// A lower-case letter.
pub open spec fn is_lower(c: char) -> bool {
    97 <= (c as u32) <= 122
}

/// An upper-case letter.
pub open spec fn is_upper(c: char) -> bool {
    65 <= (c as u32) <= 90
}

/// A letter.
pub open spec fn is_alpha(c: char) -> bool {
    is_lower(c) || is_upper(c)
}

/// A word character: letter, digit or underscore.
pub open spec fn is_word_char(c: char) -> bool {
    is_alpha(c) || crate::codec::is_digit(c) || c == '_'
}

/// A well-formed password: a letter followed by five to seventeen word
/// characters.
pub open spec fn pwd_ok(s: Seq<char>) -> bool {
    &&& 6 <= s.len() <= 18
    &&& is_alpha(s[0])
    &&& forall|i: int| 1 <= i < s.len() ==> is_word_char(#[trigger] s[i])
}

fn is_word_char_exec(c: char) -> (r: bool)
    ensures
        r == is_word_char(c),
{
    let v = c as u32;
    (97 <= v && v <= 122) || (65 <= v && v <= 90) || (48 <= v && v <= 57) || c == '_'
}

/// Checks a password: it must be a letter followed by five to seventeen
/// word characters.  An empty password and a malformed password are
/// reported apart.
pub fn validate_pwd(pwd: &str) -> (r: BasicResult<()>)
    ensures
        pwd_ok(pwd@) <==> r is Ok,
        pwd@.len() == 0 ==> (r matches Err(ErrorKind::ValidationError(m))
            && m@ == "please type in password"@),
        pwd@.len() > 0 && !pwd_ok(pwd@) ==> (r matches Err(ErrorKind::ValidationError(m))
            && m@ == "invalid passowrd: length>=6, a-z and 0-9 is demanded"@),
{
    let n = pwd.unicode_len();
    if n == 0 {
        return Err(ErrorKind::ValidationError("please type in password".to_owned()));
    }
    if n < 6 || n > 18 {
        return Err(
            ErrorKind::ValidationError(
                "invalid passowrd: length>=6, a-z and 0-9 is demanded".to_owned(),
            ),
        );
    }
    let c0 = pwd.get_char(0);
    let v0 = c0 as u32;
    if !((97 <= v0 && v0 <= 122) || (65 <= v0 && v0 <= 90)) {
        return Err(
            ErrorKind::ValidationError(
                "invalid passowrd: length>=6, a-z and 0-9 is demanded".to_owned(),
            ),
        );
    }
    let mut i: usize = 1;
    while i < n
        invariant
            n == pwd@.len(),
            1 <= i <= n,
            forall|t: int| 1 <= t < i ==> is_word_char(#[trigger] pwd@[t]),
        decreases n - i,
    {
        if !is_word_char_exec(pwd.get_char(i)) {
            return Err(
                ErrorKind::ValidationError(
                    "invalid passowrd: length>=6, a-z and 0-9 is demanded".to_owned(),
                ),
            );
        }
        i = i + 1;
    }
    Ok(())
}

/// Checks that the confirmation is itself a well-formed password and
/// repeats the password exactly.
pub fn validate_pwd_confirm(pwd: &str, pwd_confirm: &str) -> (r: BasicResult<()>)
    ensures
        r is Ok <==> pwd_ok(pwd_confirm@) && pwd@ == pwd_confirm@,
        pwd_confirm@.len() == 0 ==> (r matches Err(ErrorKind::ValidationError(m))
            && m@ == "please type in password"@),
        pwd_confirm@.len() > 0 && !pwd_ok(pwd_confirm@) ==> (r matches Err(
            ErrorKind::ValidationError(m),
        ) && m@ == "invalid passowrd: length>=6, a-z and 0-9 is demanded"@),
        pwd_ok(pwd_confirm@) && pwd@ != pwd_confirm@ ==> (r matches Err(
            ErrorKind::ValidationError(m),
        ) && m@ == "confirm password must as same as password"@),
{
    match validate_pwd(pwd_confirm) {
        Err(e) => Err(e),
        Ok(()) => {
            if !crate::text::str_eq(pwd, pwd_confirm) {
                Err(
                    ErrorKind::ValidationError(
                        "confirm password must as same as password".to_owned(),
                    ),
                )
            } else {
                Ok(())
            }
        },
    }
}

/// Relies on `web_sys::window`, `Window::local_storage` and
/// `Storage::get_item`: the value stored under `key` in the browser's
/// local storage, or `None` when there is no window, no storage, or no
/// entry.  The result depends on the environment, so nothing is promised
/// of it.
#[verifier::external_body]
fn storage_get(key: &str) -> Option<String> {
    match web_sys::window() {
        Some(w) => match w.local_storage() {
            Ok(Some(st)) => match st.get_item(key) {
                Ok(v) => v,
                Err(_) => None,
            },
            _ => None,
        },
        None => None,
    }
}

/// Relies on `web_sys::window`, `Window::local_storage` and
/// `Storage::delete`: removes the entry under `key` from the browser's
/// local storage, doing nothing where there is no window or no storage.
#[verifier::external_body]
fn storage_del(key: &str) {
    match web_sys::window() {
        Some(w) => match w.local_storage() {
            Ok(Some(st)) => {
                let _ = st.delete(key);
            },
            _ => {},
        },
        None => {},
    }
}

/// Turns a storage lookup into the token result: the stored string, or
/// the token-missing error when nothing was stored.
pub fn token_from(stored: Option<String>) -> (r: BasicResult<String>)
    ensures
        match stored {
            Some(s) => r matches Ok(t) && t == s,
            None => r matches Err(ErrorKind::OtherError(m)) && m@ == "get token failed"@,
        },
{
    match stored {
        Some(s) => Ok(s),
        None => Err(ErrorKind::OtherError("get token failed".to_owned())),
    }
}

/// The stored API token.  Whether one is stored depends on the
/// environment; a missing token is always reported as the same error.
pub fn get_token() -> (r: BasicResult<String>)
    ensures
        r matches Err(e) ==> e matches ErrorKind::OtherError(m) && m@ == "get token failed"@,
{
    token_from(storage_get("token"))
}

/// Forgets the signed-in user: clears the token, the cached user and
/// the navigation selection from local storage.
pub fn delete_current_user() -> (r: BasicResult<()>)
    ensures
        r is Ok,
{
    storage_del("token");
    storage_del("current_user");
    storage_del("selected_navbar_name");
    storage_del("selected_navbar_parent_name");
    Ok(())
}

} // verus!
