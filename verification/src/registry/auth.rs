//! Registry credentials and the token handshake: reading the challenge of a
//! registry and the token out of the answer of its token service.

use vstd::prelude::*;
use crate::text::{chars_of, find_seq_in, find_char_in, first_match_of, first_index_of, tail_from, slice_of, push_char};

verus! {

/// The errors of the token handshake.
#[derive(Debug)]
pub enum AuthError {
    Http(reqwest::Error),
    NoToken,
    Parse(String, String),
}

/// A user name and password for a registry.
#[derive(Debug)]
pub struct Credentials {
    pub username: String,
    pub password: String,
}

impl Default for Credentials {
    fn default() -> (r: Self)
        ensures
            r.username@ == Seq::<char>::empty(),
            r.password@ == Seq::<char>::empty(),
    {
        Credentials { username: String::new(), password: String::new() }
    }
}

/// `zeroize::Zeroize::zeroize` on a `String`: overwrites its bytes with zeros
/// and leaves it empty.
#[verifier::external_body]
fn zeroize_string(s: &mut String)
    ensures
        final(s)@ == Seq::<char>::empty(),
{
    zeroize::Zeroize::zeroize(s);
}

impl Credentials {
    /// Overwrites the user name and the password in memory, leaving both empty.
    pub fn wipe(&mut self)
        ensures
            final(self).username@ == Seq::<char>::empty(),
            final(self).password@ == Seq::<char>::empty(),
    {
        zeroize_string(&mut self.username);
        zeroize_string(&mut self.password);
    }
}

/// The answer of a token service; registries use either field.
#[derive(Debug)]
pub struct TokenResponse {
    pub token: Option<String>,
    pub access_token: Option<String>,
}

/// The token of an answer: `token` if present, else `access_token`.
pub fn select_token(resp: TokenResponse) -> (r: Result<String, AuthError>)
    ensures
        resp.token matches Some(t) ==> (r matches Ok(x) && x == t),
        resp.token is None ==> (resp.access_token matches Some(t) ==> (r matches Ok(x) && x == t)),
        resp.token is None && resp.access_token is None ==> (r matches Err(AuthError::NoToken)),
{
    match resp.token {
        Some(t) => Ok(t),
        None => match resp.access_token {
            Some(t) => Ok(t),
            None => Err(AuthError::NoToken),
        },
    }
}

/// The value of `key="..."` in a challenge header: the text after the first
/// `key="` up to the next double quote.
pub open spec fn quoted_value(header: Seq<char>, key: Seq<char>) -> Option<Seq<char>> {
    let needle = key + seq!['=', '"'];
    match first_match_of(header, needle) {
        None => None,
        Some(pos) => {
            let start = pos + needle.len();
            match first_index_of(header.skip(start), '"') {
                None => None,
                Some(k) => Some(header.subrange(start, start + k)),
            }
        },
    }
}

/// The realm and service of a `WWW-Authenticate` challenge.
pub open spec fn challenge_of(header: Seq<char>) -> Option<(Seq<char>, Seq<char>)> {
    match quoted_value(header, "realm"@) {
        None => None,
        Some(realm) => Some(
            (
                realm,
                match quoted_value(header, "service"@) {
                    Some(s) => s,
                    None => Seq::<char>::empty(),
                },
            ),
        ),
    }
}

fn extract_value(header: &str, key: &str) -> (r: Option<String>)
    ensures
        r matches Some(v) ==> quoted_value(header@, key@) == Some(v@),
        r is None ==> quoted_value(header@, key@) is None,
{
    let mut needle = String::from_str(key);
    push_char(&mut needle, '=');
    push_char(&mut needle, '"');
    let hv = chars_of(header);
    let nv = chars_of(needle.as_str());
    let hlen = hv.len();
    assert(nv@ == key@ + seq!['=', '"']);
    let pos = match find_seq_in(&hv, &nv) {
        Some(p) => p,
        None => return None,
    };
    assert(pos + nv@.len() <= hlen);
    let start = pos + nv.len();
    let rest = tail_from(header, start);
    let rv = chars_of(rest.as_str());
    let k = match find_char_in(&rv, '"') {
        Some(k) => k,
        None => return None,
    };
    assert(start + k < hlen);
    Some(slice_of(header, start, start + k))
}

/// Reads the realm and service out of a `WWW-Authenticate` challenge; the
/// realm is required, the service defaults to empty.
pub fn parse_www_authenticate(header: &str) -> (r: Option<(String, String)>)
    ensures
        r matches Some((realm, service)) ==> challenge_of(header@) == Some((realm@, service@)),
        r is None ==> challenge_of(header@) is None,
{
    let realm = match extract_value(header, "realm") {
        Some(v) => v,
        None => return None,
    };
    let service = match extract_value(header, "service") {
        Some(s) => s,
        None => String::new(),
    };
    Some((realm, service))
}

} // verus!
