//! The cookie with which the web transcription service is addressed.

use vstd::prelude::*;
use crate::text::{chars_of, has_char, push_all, push_str, string_of, trim, trimmed};

verus! {

/// The name under which a bare session token is sent.
pub open spec fn session_cookie_name() -> Seq<char> {
    "__Secure-next-auth.session-token"@
}

/// The cookie for the session token `token`: nothing for a token that is
/// empty once trimmed; the trimmed token itself if it is a cookie already
/// (it holds an equals sign); else the trimmed token under the session
/// cookie's name.
pub open spec fn cookie_for(token: Seq<char>) -> Option<Seq<char>> {
    let t = trimmed(token);
    if t.len() == 0 {
        None
    } else if t.contains('=') {
        Some(t)
    } else {
        Some(session_cookie_name() + seq!['='] + t)
    }
}

/// The cookie to send for the session token `token`, or nothing if the
/// token is empty.
pub fn session_cookie(token: &str) -> (cookie: Option<String>)
    ensures
        cookie is Some <==> cookie_for(token@) is Some,
        cookie matches Some(c) ==> Some(c@) == cookie_for(token@),
{
    let t = trim(&chars_of(token));
    if t.len() == 0 {
        None
    } else if has_char(&t, '=') {
        Some(string_of(&t))
    } else {
        let mut out: Vec<char> = Vec::new();
        push_str(&mut out, "__Secure-next-auth.session-token");
        out.push('=');
        push_all(&mut out, &t);
        assert(out@ =~= session_cookie_name() + seq!['='] + t@);
        Some(string_of(&out))
    }
}

} // verus!
