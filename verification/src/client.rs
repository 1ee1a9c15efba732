//! What the tracker client sends: the Authorization header value and the
//! search request pieces.

use vstd::prelude::*;
use base64::Engine;

verus! {

/// What the standard Base64 engine produces for the UTF-8 bytes of a
/// string: a function of the characters alone.
pub uninterp spec fn base64_std_of(s: Seq<char>) -> Seq<char>;

/// Relies on base64's `Engine::encode` with the standard alphabet and
/// padding: a pure encoding, determined by the input bytes alone, here
/// the UTF-8 bytes of `s`, which its characters fix. The length bound
/// keeps the engine's output-size computation away from overflow.
#[verifier::external_body]
fn base64_encode(s: &str) -> (r: String)
    requires
        s@.len() <= 0x1000_0000,
    ensures
        r@ == base64_std_of(s@),
{
    base64::engine::general_purpose::STANDARD.encode(s.as_bytes())
}

/// The Authorization header for a run: HTTP Basic over `user:token` when
/// a user name is configured, a Bearer token otherwise. The length bound
/// is a machine limit of the encoder, far beyond any real credential.
pub fn auth_header_value(user: &Option<String>, token: &str) -> (r: String)
    requires
        match user {
            Some(u) => u@.len() + token@.len() + 1 <= 0x1000_0000,
            None => true,
        },
    ensures
        match user {
            Some(u) => r@ == "Basic "@ + base64_std_of(u@ + ":"@ + token@),
            None => r@ == "Bearer "@ + token@,
        },
{
    match user {
        Some(u) => {
            let mut credentials = String::from_str(u.as_str());
            credentials.append(":");
            credentials.append(token);
            proof {
                reveal_strlit(":");
            }
            let encoded = base64_encode(credentials.as_str());
            let mut r = String::from_str("Basic ");
            r.append(encoded.as_str());
            r
        },
        None => {
            let mut r = String::from_str("Bearer ");
            r.append(token);
            r
        },
    }
}

/// The search endpoint of the tracker's API on `host`.
pub fn search_url(host: &str) -> (r: String)
    ensures
        r@ == "https://"@ + host@ + "/rest/api/3/search"@,
{
    let mut r = String::from_str("https://");
    r.append(host);
    r.append("/rest/api/3/search");
    r
}

/// The fields the issue query asks the tracker to return.
pub fn search_fields() -> (r: &'static str)
    ensures
        r@ == "key,summary,description,status,created,priority,issuetype"@,
{
    "key,summary,description,status,created,priority,issuetype"
}

} // verus!
