//! The admin reload gate: a shared-secret check that runs before any
//! reload is attempted, with its outcomes kept distinguishable.

use vstd::prelude::*;

use crate::text::str_eq;

verus! {

/// The query a reload request carries.
#[derive(Debug)]
pub struct ReloadQuery {
    pub secret: String,
}

/// How a reload request was received.
#[derive(Debug, Clone, Copy, PartialEq, Eq, Structural)]
pub enum ReloadAuth {
    /// No admin secret is configured: reloading is not available at all.
    NotConfigured,
    /// The presented secret does not match the configured one.
    BadSecret,
    /// The presented secret matches: the reload may proceed.
    Authorized,
}

/// Decides whether a reload request is allowed, before anything is
/// reloaded: refused outright without a configured secret, refused on a
/// mismatch, and allowed only on exact equality.
pub fn authorize_reload(admin_secret: Option<&String>, query: &ReloadQuery) -> (r: ReloadAuth)
    ensures
        admin_secret is None ==> r == ReloadAuth::NotConfigured,
        admin_secret matches Option::Some(s) && query.secret@ == s@ ==> r == ReloadAuth::Authorized,
        admin_secret matches Option::Some(s) && query.secret@ != s@ ==> r == ReloadAuth::BadSecret,
{
    match admin_secret {
        Option::None => ReloadAuth::NotConfigured,
        Option::Some(s) => {
            if str_eq(query.secret.as_str(), s.as_str()) {
                ReloadAuth::Authorized
            } else {
                ReloadAuth::BadSecret
            }
        },
    }
}

} // verus!
