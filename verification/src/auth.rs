//! Authentication of JMAP requests: the credentials an `Authorization`
//! header carries (Basic or Bearer), what a backend's verdict makes of
//! them, and the error a refused request is answered with.
use vstd::prelude::*;
use vstd::utf8::{decode_utf8, encode_utf8_decode_utf8, valid_utf8};

use crate::text::{
    chars_of, chars_range, chars_skip, find_char, index_of, is_white_exec, string_of, trim_chars, trim_start_ws, trim_ws,
};
use crate::outside::utf8_text;
use crate::types::{account_id_spec, derive_account_id, JmapError, JmapErrorType, Principal};

verus! {

/// The bytes that standard base64 (with padding) decodes a text to, if it
/// is valid base64.
pub uninterp spec fn base64_standard_decoded(s: Seq<char>) -> Option<Seq<u8>>;

/// `base64::engine::general_purpose::STANDARD.decode`: the decoded bytes,
/// or `None` where the text is not valid base64. Its result is
/// `base64_standard_decoded` of the text.
#[verifier::external_body]
fn base64_decode(s: &str) -> (r: Option<Vec<u8>>)
    ensures
        match r {
            Some(b) => base64_standard_decoded(s@) == Some(b@),
            None => base64_standard_decoded(s@) is None,
        },
{
    base64::Engine::decode(&base64::engine::general_purpose::STANDARD, s).ok()
}

/// Credentials carried by an `Authorization` header.
#[derive(Debug, Clone, PartialEq, Eq)]
pub enum Credentials {
    /// `Basic base64(user:pass)`.
    Basic { username: String, password: String },
    /// `Bearer <token>`.
    Bearer { token: String },
}

/// The contents of credentials.
pub enum CredentialsView {
    Basic { username: Seq<char>, password: Seq<char> },
    Bearer { token: Seq<char> },
}

impl View for Credentials {
    type V = CredentialsView;

    open spec fn view(&self) -> CredentialsView {
        match self {
            Credentials::Basic { username, password } => CredentialsView::Basic {
                username: username@,
                password: password@,
            },
            Credentials::Bearer { token } => CredentialsView::Bearer { token: token@ },
        }
    }
}

/// The contents of optional credentials.
pub open spec fn opt_credentials(o: Option<Credentials>) -> Option<CredentialsView> {
    match o {
        Some(c) => Some(c@),
        None => None,
    }
}

/// Whether a character may stand in an HTTP header value read as text:
/// visible ASCII or a tab.
pub open spec fn header_char(c: char) -> bool {
    (32 <= c as u32 && (c as u32) < 127) || c == '\t'
}

/// Whether every character of a text may stand in a header value.
pub open spec fn header_text(s: Seq<char>) -> bool {
    forall|i: int| 0 <= i < s.len() ==> header_char(#[trigger] s[i])
}

/// The ASCII lower-case of a character; other characters are unchanged.
pub open spec fn ascii_lower(c: char) -> char {
    if 'A' <= c && c <= 'Z' {
        ((c as u32) + 32) as char
    } else {
        c
    }
}

/// Whether two texts are equal but for ASCII case.
pub open spec fn eq_ignore_ascii_case(a: Seq<char>, b: Seq<char>) -> bool {
    a.len() == b.len() && forall|i: int| 0 <= i < a.len() ==> ascii_lower(#[trigger] a[i]) == ascii_lower(b[i])
}

/// What follows a scheme name at the start of a header value: the value
/// must be longer than the name, begin with it in any ASCII case, and hold
/// something after the white space that follows it.
pub open spec fn after_scheme(value: Seq<char>, scheme: Seq<char>) -> Option<Seq<char>> {
    if value.len() <= scheme.len() {
        None
    } else if !eq_ignore_ascii_case(value.take(scheme.len() as int), scheme) {
        None
    } else {
        let rest = trim_start_ws(value.skip(scheme.len() as int));
        if rest.len() == 0 {
            None
        } else {
            Some(rest)
        }
    }
}

/// The name of the Basic scheme.
pub open spec fn basic_scheme() -> Seq<char> {
    seq!['B', 'a', 's', 'i', 'c']
}

/// The name of the Bearer scheme.
pub open spec fn bearer_scheme() -> Seq<char> {
    seq!['B', 'e', 'a', 'r', 'e', 'r']
}

/// The user name and password of a decoded Basic pair: what comes before
/// the first `:` and what comes after it. There must be a `:` and a
/// non-empty user name.
pub open spec fn basic_pair(text: Seq<char>) -> Option<CredentialsView> {
    match index_of(text, ':') {
        Some(i) => if i == 0 {
            None
        } else {
            Some(CredentialsView::Basic { username: text.take(i), password: text.skip(i + 1) })
        },
        None => None,
    }
}

/// The credentials a Basic header's encoded part carries.
pub open spec fn basic_credentials(encoded: Seq<char>) -> Option<CredentialsView> {
    match base64_standard_decoded(encoded) {
        Some(bytes) => if valid_utf8(bytes) {
            basic_pair(decode_utf8(bytes))
        } else {
            None
        },
        None => None,
    }
}

/// The credentials an `Authorization` header value carries: Basic or
/// Bearer (scheme names in any ASCII case), or none.
pub open spec fn credentials_of(value: Option<Seq<char>>) -> Option<CredentialsView> {
    match value {
        None => None,
        Some(v) => if !header_text(v) {
            None
        } else {
            let t = trim_ws(v);
            match after_scheme(t, basic_scheme()) {
                Some(rest) => basic_credentials(rest),
                None => match after_scheme(t, bearer_scheme()) {
                    Some(rest) => {
                        let token = trim_ws(rest);
                        if token.len() == 0 {
                            None
                        } else {
                            Some(CredentialsView::Bearer { token })
                        }
                    },
                    None => None,
                },
            }
        },
    }
}

/// ASCII lower-case of one character.
fn lower_ascii_char(c: char) -> (r: char)
    ensures
        r == ascii_lower(c),
{
    if 'A' <= c && c <= 'Z' {
        let b: u8 = (c as u32) as u8;
        assert(b == c as u32);
        (b + 32) as char
    } else {
        c
    }
}

/// What follows `scheme` at the start of `value` (see `after_scheme`).
pub fn strip_scheme(value: &Vec<char>, scheme: &Vec<char>) -> (r: Option<Vec<char>>)
    ensures
        match r {
            Some(rest) => after_scheme(value@, scheme@) == Some(rest@),
            None => after_scheme(value@, scheme@) is None,
        },
{
    let n = scheme.len();
    if value.len() <= n {
        return None;
    }
    let mut i: usize = 0;
    while i < n
        invariant
            i <= n,
            n == scheme@.len(),
            n < value@.len(),
            forall|j: int| 0 <= j < i ==> ascii_lower(value@[j]) == ascii_lower(scheme@[j]),
        decreases n - i,
    {
        if lower_ascii_char(value[i]) != lower_ascii_char(scheme[i]) {
            assert(!eq_ignore_ascii_case(value@.take(n as int), scheme@)) by {
                assert(value@.take(n as int)[i as int] == value@[i as int]);
            }
            return None;
        }
        i = i + 1;
    }
    assert(eq_ignore_ascii_case(value@.take(n as int), scheme@)) by {
        assert forall|j: int| 0 <= j < n implies ascii_lower(#[trigger] value@.take(n as int)[j]) == ascii_lower(
            scheme@[j],
        ) by {
            assert(value@.take(n as int)[j] == value@[j]);
        }
    }
    let after = chars_skip(value, n);
    let mut k: usize = 0;
    assert(after@.skip(0) =~= after@);
    while k < after.len() && is_white_exec(after[k])
        invariant
            k <= after@.len(),
            trim_start_ws(after@) == trim_start_ws(after@.skip(k as int)),
        decreases after.len() - k,
    {
        assert(after@.skip(k as int).drop_first() =~= after@.skip(k + 1));
        k = k + 1;
    }
    let rest = chars_skip(&after, k);
    if rest.len() == 0 {
        None
    } else {
        Some(rest)
    }
}

/// The user name and password of a decoded Basic pair (see `basic_pair`).
pub fn split_basic(text: &str) -> (r: Option<Credentials>)
    ensures
        opt_credentials(r) == basic_pair(text@),
{
    let v = chars_of(text);
    match find_char(&v, ':') {
        Some(i) => {
            if i == 0 {
                None
            } else {
                let n = v.len();
                assert(i < n);
                let user = chars_range(&v, 0, i);
                let pass = chars_skip(&v, i + 1);
                assert(user@ =~= text@.take(i as int));
                Some(Credentials::Basic { username: string_of(user.as_slice()), password: string_of(pass.as_slice()) })
            }
        },
        None => None,
    }
}

/// The credentials of a Basic header's encoded part (see
/// `basic_credentials`).
pub fn decode_basic(encoded: &str) -> (r: Option<Credentials>)
    ensures
        opt_credentials(r) == basic_credentials(encoded@),
{
    match base64_decode(encoded) {
        Some(bytes) => match utf8_text(bytes) {
            Some(text) => {
                proof {
                    encode_utf8_decode_utf8(text@);
                }
                split_basic(text.as_str())
            },
            None => None,
        },
        None => None,
    }
}

/// Whether every character may stand in a header value.
fn is_header_text(v: &Vec<char>) -> (r: bool)
    ensures
        r == header_text(v@),
{
    let mut i: usize = 0;
    while i < v.len()
        invariant
            i <= v@.len(),
            forall|j: int| 0 <= j < i ==> header_char(#[trigger] v@[j]),
        decreases v.len() - i,
    {
        let c = v[i];
        if !((32 <= (c as u32) && (c as u32) < 127) || c == '\t') {
            return false;
        }
        i = i + 1;
    }
    true
}

/// The credentials of an `Authorization` header value, if it carries
/// Basic or Bearer credentials (see `credentials_of`); `None` where the
/// header is missing, is not text of visible ASCII, names another scheme,
/// or is malformed.
pub fn extract_credentials(authorization: Option<&str>) -> (r: Option<Credentials>)
    ensures
        opt_credentials(r) == credentials_of(match authorization {
            Some(s) => Some(s@),
            None => None,
        }),
{
    let value = match authorization {
        Some(s) => s,
        None => return None,
    };
    let v = chars_of(value);
    if !is_header_text(&v) {
        return None;
    }
    let t = trim_chars(&v);
    let basic: Vec<char> = vec!['B', 'a', 's', 'i', 'c'];
    assert(basic@ =~= basic_scheme());
    if let Some(rest) = strip_scheme(&t, &basic) {
        return decode_basic(string_of(rest.as_slice()).as_str());
    }
    let bearer: Vec<char> = vec!['B', 'e', 'a', 'r', 'e', 'r'];
    assert(bearer@ =~= bearer_scheme());
    if let Some(rest) = strip_scheme(&t, &bearer) {
        let token = trim_chars(&rest);
        if token.len() == 0 {
            return None;
        }
        return Some(Credentials::Bearer { token: string_of(token.as_slice()) });
    }
    None
}

/// Why a request was not authenticated.
#[derive(Debug, Clone, PartialEq, Eq)]
pub enum AuthError {
    /// No usable credentials, or the backend refused them.
    Unauthorized,
    /// The backend itself failed, with its message.
    Backend(String),
}

/// The principal that authenticates as a user name: it owns the account
/// derived from the name and holds no scopes.
pub open spec fn principal_of(p: Principal, username: Seq<char>) -> bool {
    &&& p.username@ == username
    &&& p.account_id@ == account_id_spec(username)
    &&& p.scopes@.len() == 0
}

/// The principal for an authenticated user name.
pub fn principal_for(username: String) -> (r: Principal)
    ensures
        principal_of(r, username@),
{
    let account_id = derive_account_id(username.as_str());
    Principal { username, account_id, scopes: Vec::new() }
}

/// What Basic credentials come to, given the backend's answer for the
/// user name and password (`Ok(true)` accepted, `Ok(false)` refused, or its
/// error message).
pub fn basic_verdict(username: &str, backend: Result<bool, String>) -> (r: Result<Principal, AuthError>)
    ensures
        match backend {
            Ok(true) => r matches Ok(p) && principal_of(p, username@),
            Ok(false) => r == Err::<Principal, AuthError>(AuthError::Unauthorized),
            Err(m) => r matches Err(AuthError::Backend(e)) && e@ == m@,
        },
{
    match backend {
        Ok(true) => Ok(principal_for(crate::text::string_from(username))),
        Ok(false) => Err(AuthError::Unauthorized),
        Err(m) => Err(AuthError::Backend(m)),
    }
}

/// What a Bearer token comes to, given the user name the backend verified
/// it for, or `None` where the backend refused it.
pub fn bearer_verdict(verified: Option<String>) -> (r: Result<Principal, AuthError>)
    ensures
        match verified {
            Some(u) => r matches Ok(p) && principal_of(p, u@),
            None => r == Err::<Principal, AuthError>(AuthError::Unauthorized),
        },
{
    match verified {
        Some(u) => Ok(principal_for(u)),
        None => Err(AuthError::Unauthorized),
    }
}

/// The value of the `WWW-Authenticate` header on a refusal.
pub const WWW_AUTHENTICATE_VALUE: &'static str = "Basic realm=\"jmap\"";

/// The HTTP status of a refusal.
pub const UNAUTHORIZED_STATUS: u16 = 401;

impl AuthError {
    /// The detail text a refusal carries.
    pub fn detail(&self) -> (r: String)
        ensures
            r@ == match self {
                AuthError::Unauthorized => "Authentication required"@,
                AuthError::Backend(_) => "Authentication backend error"@,
            },
    {
        match self {
            AuthError::Unauthorized => crate::text::string_from("Authentication required"),
            AuthError::Backend(_) => crate::text::string_from("Authentication backend error"),
        }
    }

    /// The error a refused request is answered with: `serverFail`, status
    /// 401, and the detail text.
    pub fn error_body(&self) -> (r: JmapError)
        ensures
            r.error_type == JmapErrorType::ServerFail,
            r.status == Some(UNAUTHORIZED_STATUS),
            r.detail matches Some(d) && d@ == match self {
                AuthError::Unauthorized => "Authentication required"@,
                AuthError::Backend(_) => "Authentication backend error"@,
            },
            r.limit is None,
    {
        JmapError::new(JmapErrorType::ServerFail).with_status(UNAUTHORIZED_STATUS).with_detail(self.detail())
    }
}

} // verus!
