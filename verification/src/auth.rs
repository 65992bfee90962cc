//! Signing in: the GitHub authorization link, exchanging the OAuth code
//! through the worker, and tokens typed in by hand.
use vstd::prelude::*;
use crate::text::{chars_of, extend_str, push_decimal, string_from_chars};

verus! {

broadcast use vstd::string::group_string_axioms;

/// The page that asks GitHub to authorize the app for the repository scope.
pub fn authorize_url(client_id: &str, origin: &str) -> (url: String)
    ensures
        url@ == "https://github.com/login/oauth/authorize?client_id="@ + client_id@
            + "&redirect_uri="@ + origin@ + "&scope=repo"@,
{
    let mut out: Vec<char> = Vec::new();
    extend_str(&mut out, "https://github.com/login/oauth/authorize?client_id=");
    extend_str(&mut out, client_id);
    extend_str(&mut out, "&redirect_uri=");
    extend_str(&mut out, origin);
    extend_str(&mut out, "&scope=repo");
    string_from_chars(out.as_slice())
}

/// Where the OAuth code is exchanged: the worker's `/exchange`, which needs
/// the worker's URL to be configured.
pub fn exchange_url(worker_url: &str) -> (r: Result<String, String>)
    ensures
        worker_url@.len() == 0 ==> (r matches Err(e) && e@ == "OAuth worker URL not configured"@),
        worker_url@.len() > 0 ==> (r matches Ok(u) && u@ == worker_url@ + "/exchange"@),
{
    let w = chars_of(worker_url);
    if w.len() == 0 {
        return Err("OAuth worker URL not configured".to_string());
    }
    let mut out: Vec<char> = Vec::new();
    extend_str(&mut out, worker_url);
    extend_str(&mut out, "/exchange");
    Ok(string_from_chars(out.as_slice()))
}

/// The worker answers an exchange with 200; any other status is an error.
pub fn exchange_status(status: u16) -> (r: Result<(), String>)
    ensures
        status == 200 ==> r is Ok,
        status != 200 ==> (r matches Err(e) && e@ == "Worker returned status "@
            + crate::text::decimal(status as nat)),
{
    if status == 200 {
        Ok(())
    } else {
        let mut out: Vec<char> = Vec::new();
        extend_str(&mut out, "Worker returned status ");
        push_decimal(&mut out, status as u128);
        Err(string_from_chars(out.as_slice()))
    }
}

/// The error shown when the OAuth exchange fails.
pub fn oauth_error(e: &str) -> (m: String)
    ensures
        m@ == "OAuth error: "@ + e@,
{
    let mut out: Vec<char> = Vec::new();
    extend_str(&mut out, "OAuth error: ");
    extend_str(&mut out, e);
    string_from_chars(out.as_slice())
}

/// A token typed in by hand is used when it is not empty.
pub fn accepted_dev_token(token: &str) -> (t: Option<String>)
    ensures
        token@.len() == 0 ==> t is None,
        token@.len() > 0 ==> (t matches Some(s) && s@ == token@),
{
    let cs = chars_of(token);
    if cs.len() == 0 {
        None
    } else {
        Some(token.to_string())
    }
}

} // verus!
