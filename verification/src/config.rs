//! The password configuration: a single stored value with a documented
//! default, and the login and password-change decisions over it.
//!
//! Reading the configuration never fails: a missing, unreadable or
//! malformed configuration file is deliberately treated as the default
//! password. The host hands the stored value here as `None` in any of those
//! cases.

use vstd::prelude::*;

verus! {

/// The stored configuration: the password, kept in plain text by the
/// original.
#[derive(Debug)]
pub struct Config {
    pub password: String,
}

impl Clone for Config {
    fn clone(&self) -> (r: Config)
        ensures
            r == *self,
    {
        Config { password: self.password.clone() }
    }
}

/// The password that a stored value denotes: the value itself when one was
/// read, else the default.
pub open spec fn spec_effective_password(stored: Option<Seq<char>>) -> Seq<char> {
    match stored {
        Some(p) => p,
        None => "admin123"@,
    }
}

/// Resolves the stored password, falling back to the default when the
/// configuration was missing or malformed.
pub fn effective_password(stored: Option<String>) -> (r: String)
    ensures
        r@ == spec_effective_password(match stored {
            Some(p) => Some(p@),
            None => None,
        }),
{
    match stored {
        Some(p) => p,
        None => String::from_str("admin123"),
    }
}

/// Decides a login attempt: the supplied password must equal the effective
/// stored one.
pub fn login(password: &str, stored: Option<String>) -> (r: bool)
    ensures
        r == (password@ == spec_effective_password(match stored {
            Some(p) => Some(p@),
            None => None,
        })),
{
    let effective = effective_password(stored);
    crate::text::str_eq(password, effective.as_str())
}

/// The outcome of a password change request.
#[derive(Clone, Copy, Debug, PartialEq, Eq, Structural)]
pub enum ChangeOutcome {
    /// The old password did not match; nothing is written.
    WrongOldPassword,
    /// The new password is shorter than three characters; nothing is
    /// written.
    TooShort,
    /// The change is accepted: the new configuration is to be written.
    Accepted,
}

/// Decides a password change: the old password must match the effective
/// stored one, and the new one must be at least three characters long.
/// Only an accepted change produces a configuration to persist.
pub fn change_password(old_password: &str, new_password: &str, stored: Option<String>) -> (r: (
    ChangeOutcome,
    Option<Config>,
))
    ensures
        ({
            let effective = spec_effective_password(match stored {
                Some(p) => Some(p@),
                None => None,
            });
            &&& (r.0 == ChangeOutcome::WrongOldPassword <==> old_password@ != effective)
            &&& (r.0 == ChangeOutcome::TooShort <==> (old_password@ == effective
                && new_password@.len() < 3))
            &&& (r.0 == ChangeOutcome::Accepted <==> (old_password@ == effective
                && new_password@.len() >= 3))
            &&& (r.0 == ChangeOutcome::Accepted ==> r.1 is Some && r.1->0.password@
                == new_password@)
            &&& (r.0 != ChangeOutcome::Accepted ==> r.1 is None)
        }),
{
    let effective = effective_password(stored);
    if !crate::text::str_eq(old_password, effective.as_str()) {
        (ChangeOutcome::WrongOldPassword, None)
    } else if new_password.unicode_len() < 3 {
        (ChangeOutcome::TooShort, None)
    } else {
        (ChangeOutcome::Accepted, Some(Config { password: new_password.to_owned() }))
    }
}

} // verus!
