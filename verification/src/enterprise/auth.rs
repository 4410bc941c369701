//! OIDC device-flow sign-in: the stored token, its expiry, and the decisions of
//! the polling loop (the HTTP requests and the waiting are the caller's).

use crate::text::owned;
use vstd::prelude::*;

verus! {

/// The identity provider of a device-flow sign-in.
#[derive(Debug)]
pub struct OidcConfig {
    pub client_id: String,
    pub device_authorization_endpoint: String,
    pub token_endpoint: String,
    pub scope: String,
}

/// The stored tokens of a sign-in; `issued_at` in seconds since the Unix epoch.
#[derive(Debug)]
pub struct OidcTokenStore {
    pub access_token: String,
    pub refresh_token: Option<String>,
    pub token_type: String,
    pub expires_in: u64,
    pub issued_at: u64,
}

/// What the status command reports about the stored token.
#[derive(Debug)]
pub struct OidcStatus {
    pub authenticated: bool,
    pub token_type: Option<String>,
    pub expires_at: u64,
    pub expired: bool,
}

/// `a + b`, or `u64::MAX` when that overflows.
pub open spec fn saturating_sum(a: u64, b: u64) -> u64 {
    if a + b > u64::MAX {
        u64::MAX
    } else {
        (a + b) as u64
    }
}

/// When the token expires (`issued_at + expires_in`, saturating).
pub fn token_expires_at(tok: &OidcTokenStore) -> (r: u64)
    ensures
        r == saturating_sum(tok.issued_at, tok.expires_in),
{
    tok.issued_at.saturating_add(tok.expires_in)
}

/// The status of the stored token at `now`: not signed in without one; with
/// one, its type, when it expires, and whether that moment has come.
pub fn oidc_status_at(tok: Option<&OidcTokenStore>, now: u64) -> (r: OidcStatus)
    ensures
        match tok {
            None => !r.authenticated && r.token_type is None && r.expires_at == 0 && !r.expired,
            Some(t) => r.authenticated && (r.token_type matches Some(ty) && ty@ == t.token_type@)
                && r.expires_at == saturating_sum(t.issued_at, t.expires_in) && r.expired == (now
                >= r.expires_at),
        },
{
    match tok {
        None => OidcStatus { authenticated: false, token_type: None, expires_at: 0, expired: false },
        Some(t) => {
            let exp = token_expires_at(t);
            OidcStatus {
                authenticated: true,
                token_type: Some(t.token_type.clone()),
                expires_at: exp,
                expired: now >= exp,
            }
        },
    }
}

/// Seconds between polls of the token endpoint: the provider's interval
/// (five when it gives none), at least one.
pub fn device_poll_interval(interval: Option<u64>) -> (r: u64)
    ensures
        r == match interval {
            Some(i) => if i >= 1 { i } else { 1 },
            None => 5,
        },
{
    let i = match interval {
        Some(i) => i,
        None => 5,
    };
    if i >= 1 {
        i
    } else {
        1
    }
}

/// After a refused token request at `now`: give up once more than `expires_in`
/// seconds have passed since `start`, else wait `interval` seconds and poll again.
pub fn device_poll_after_refusal(start: u64, now: u64, expires_in: u64, interval: u64) -> (r: Result<u64, String>)
    ensures
        (if now >= start { now - start } else { 0 }) > expires_in ==> (r matches Err(e) && e@
            == "oidc_device_code_timeout"@),
        (if now >= start { now - start } else { 0 }) <= expires_in ==> r == Ok::<u64, String>(interval),
{
    let elapsed = now.saturating_sub(start);
    if elapsed > expires_in {
        return Err(owned("oidc_device_code_timeout"));
    }
    Ok(interval)
}

} // verus!
