//! Origin-confined, memory-only request context rules: cookie syntax and
//! scope, credential syntax and expiry. No cookie jar or response secrets.
use vstd::prelude::*;
use crate::network::{http_scheme, https_scheme, parse_url_parts, url_origin, url_origin_of, url_parts_of};
use crate::integrity::ascii_lower;
use crate::text::{chars_of, lower_ascii, same_text, string_from_chars, utf8_len, utf8_width};

verus! {

/// Bounded failure with no supplied data in its representation.
#[derive(Debug, Clone, Copy, PartialEq, Eq, Structural)]
pub enum ContextError {
    /// A supplied field or scope is unsafe.
    Invalid,
    /// Cookie lifetime elapsed; never retry with a silently reduced session.
    Expired,
}

/// Where a URL points, as `reqwest::Url::parse` reads it: the host (empty
/// when there is none), the path, and whether it has a fragment; `None`
/// where the text is not a URL.
pub uninterp spec fn url_location_of(url: Seq<char>) -> Option<(Seq<char>, Seq<char>, bool)>;

/// Calls `reqwest::Url::parse`, then reads `host_str` (empty when absent),
/// `path` and whether `fragment` is present. Claimed: the result is the named
/// reading, nothing more.
#[verifier::external_body]
pub(crate) fn url_location(url: &str) -> (location: Option<(String, String, bool)>)
    ensures
        location is Some <==> url_location_of(url@) is Some,
        location matches Some(l) ==> url_location_of(url@) == Some((l.0@, l.1@, l.2)),
{
    let parsed = reqwest::Url::parse(url).ok()?;
    let host = parsed.host_str().unwrap_or_default().to_owned();
    Some((host, parsed.path().to_owned(), parsed.fragment().is_some()))
}

/// The instant an RFC 3339 timestamp denotes, in nanoseconds after the Unix
/// epoch, as `time::OffsetDateTime::parse` with `Rfc3339` and then
/// `unix_timestamp_nanos` give it; `None` where parsing fails.
pub uninterp spec fn rfc3339_nanos_of(text: Seq<char>) -> Option<i128>;

/// Calls `time::OffsetDateTime::parse(text, &Rfc3339)`, then
/// `unix_timestamp_nanos`. Claimed: the result is the named instant, nothing
/// more.
#[verifier::external_body]
fn parse_rfc3339_nanos(text: &str) -> (nanos: Option<i128>)
    ensures
        nanos == rfc3339_nanos_of(text@),
{
    time::OffsetDateTime::parse(text, &time::format_description::well_known::Rfc3339)
        .ok()
        .map(|parsed| parsed.unix_timestamp_nanos())
}

/// Calls `time::OffsetDateTime::now_utc`, then `unix_timestamp_nanos`. The
/// result is the machine's clock; nothing is claimed of it.
#[verifier::external_body]
fn utc_now_nanos() -> (nanos: i128) {
    time::OffsetDateTime::now_utc().unix_timestamp_nanos()
}

/// ASCII letters and digits.
pub open spec fn is_ascii_alnum(c: char) -> bool {
    ('a' <= c && c <= 'z') || ('A' <= c && c <= 'Z') || ('0' <= c && c <= '9')
}

/// Characters of an HTTP token.
pub open spec fn is_token_char(c: char) -> bool {
    is_ascii_alnum(c) || c == '!' || c == '#' || c == '$' || c == '%' || c == '&' || c == '\'' || c == '*'
        || c == '+' || c == '-' || c == '.' || c == '^' || c == '_' || c == '`' || c == '|' || c == '~'
}

/// Characters of a cookie value: visible ASCII except `"`, `,`, `;` and `\`.
pub open spec fn is_cookie_value_char(c: char) -> bool {
    let n = c as u32;
    n == 0x21 || (0x23 <= n && n <= 0x2b) || (0x2d <= n && n <= 0x3a) || (0x3c <= n && n <= 0x5b) || (0x5d <= n
        && n <= 0x7e)
}

/// Characters allowed in a cookie path: anything but controls, space and DEL.
pub open spec fn is_cookie_path_char(c: char) -> bool {
    (c as u32) >= 0x21 && (c as u32) != 0x7f
}

/// Characters allowed in a cookie domain.
pub open spec fn is_domain_char(c: char) -> bool {
    is_ascii_alnum(c) || c == '.' || c == '-' || c == ':' || c == '[' || c == ']'
}

/// Visible ASCII, `0x21..=0x7e`.
pub open spec fn is_visible_char(c: char) -> bool {
    0x21 <= (c as u32) && (c as u32) <= 0x7e
}

/// Characters allowed in a header value built here: space and visible ASCII.
pub open spec fn is_header_char(c: char) -> bool {
    0x20 <= (c as u32) && (c as u32) <= 0x7e
}

/// Characters refused anywhere in a context URL: controls, space and DEL.
pub open spec fn is_url_forbidden_char(c: char) -> bool {
    (c as u32) <= 0x20 || (c as u32) == 0x7f
}

/// Whether every character satisfies a predicate.
pub open spec fn all_chars(s: Seq<char>, p: spec_fn(char) -> bool) -> bool {
    forall|i: int| 0 <= i < s.len() ==> p(#[trigger] s[i])
}

/// Whether no character satisfies a predicate.
pub open spec fn no_char(s: Seq<char>, p: spec_fn(char) -> bool) -> bool {
    forall|i: int| 0 <= i < s.len() ==> !p(#[trigger] s[i])
}

fn all_chars_in(s: &str, class: u8) -> (all: bool)
    requires
        class <= 5,
    ensures
        all == all_chars(s@, char_class(class)),
{
    let chars = chars_of(s);
    let mut i: usize = 0;
    while i < chars.len()
        invariant
            chars@ == s@,
            class <= 5,
            0 <= i <= chars@.len(),
            forall|k: int| 0 <= k < i ==> char_class(class)(#[trigger] chars@[k]),
        decreases chars@.len() - i,
    {
        if !in_class(chars[i], class) {
            return false;
        }
        i += 1;
    }
    true
}

/// The character classes checked here, by number.
pub open spec fn char_class(class: u8) -> spec_fn(char) -> bool {
    if class == 0 {
        |c: char| is_token_char(c)
    } else if class == 1 {
        |c: char| is_cookie_value_char(c)
    } else if class == 2 {
        |c: char| is_cookie_path_char(c)
    } else if class == 3 {
        |c: char| is_domain_char(c)
    } else if class == 4 {
        |c: char| is_visible_char(c)
    } else {
        |c: char| !is_url_forbidden_char(c)
    }
}

fn in_class(c: char, class: u8) -> (inside: bool)
    requires
        class <= 5,
    ensures
        inside == char_class(class)(c),
{
    let n = c as u32;
    let alnum = ('a' <= c && c <= 'z') || ('A' <= c && c <= 'Z') || ('0' <= c && c <= '9');
    if class == 0 {
        alnum || c == '!' || c == '#' || c == '$' || c == '%' || c == '&' || c == '\'' || c == '*' || c == '+'
            || c == '-' || c == '.' || c == '^' || c == '_' || c == '`' || c == '|' || c == '~'
    } else if class == 1 {
        n == 0x21 || (0x23 <= n && n <= 0x2b) || (0x2d <= n && n <= 0x3a) || (0x3c <= n && n <= 0x5b) || (0x5d <= n
            && n <= 0x7e)
    } else if class == 2 {
        n >= 0x21 && n != 0x7f
    } else if class == 3 {
        alnum || c == '.' || c == '-' || c == ':' || c == '[' || c == ']'
    } else if class == 4 {
        0x21 <= n && n <= 0x7e
    } else {
        !(n <= 0x20 || n == 0x7f)
    }
}

proof fn lemma_utf8_len_push(s: Seq<char>, c: char)
    ensures
        utf8_len(s.push(c)) == utf8_len(s) + utf8_width(c),
    decreases s.len(),
{
    if s.len() > 0 {
        assert(s.push(c).drop_first() =~= s.drop_first().push(c));
        assert(s.push(c)[0] == s[0]);
        lemma_utf8_len_push(s.drop_first(), c);
    } else {
        assert(s.push(c).drop_first() =~= Seq::<char>::empty());
        assert(s.push(c)[0] == c);
        assert(utf8_len(Seq::<char>::empty()) == 0);
    }
}

/// UTF-8 length of a text.
pub fn utf8_byte_len(s: &str) -> (n: u128)
    ensures
        n == utf8_len(s@),
{
    let chars = chars_of(s);
    let mut total: u128 = 0;
    let mut i: usize = 0;
    while i < chars.len()
        invariant
            chars@ == s@,
            0 <= i <= chars@.len(),
            total == utf8_len(chars@.take(i as int)),
            total <= 4 * i,
        decreases chars@.len() - i,
    {
        let c = chars[i];
        let n = c as u32;
        let width: u128 = if n <= 0x7f { 1 } else if n <= 0x7ff { 2 } else if n <= 0xffff { 3 } else { 4 };
        proof {
            assert(chars@.take(i + 1) =~= chars@.take(i as int).push(c));
            lemma_utf8_len_push(chars@.take(i as int), c);
        }
        total = total + width;
        i += 1;
    }
    proof {
        assert(chars@.take(chars@.len() as int) =~= chars@);
    }
    total
}

} // verus!

verus! {

/// One cookie offered at the protocol boundary.
pub struct CookieInput {
    pub name: String,
    pub value: String,
    pub domain: String,
    pub path: String,
    pub secure: bool,
    /// RFC 3339 expiry, if the cookie is not a session cookie.
    pub expires_at: Option<String>,
}

/// An `Authorization` credential offered at the protocol boundary.
pub struct AuthorizationInput {
    pub scheme: String,
    pub value: String,
}

/// Credentials offered at the protocol boundary.
pub struct CredentialsInput {
    pub authorization: Option<AuthorizationInput>,
    pub cookies: Option<Vec<CookieInput>>,
}

/// A request context offered at the protocol boundary.
pub struct RequestContextInput {
    pub referrer: Option<String>,
    pub credentials: Option<CredentialsInput>,
}

/// The plain reading of a validated cookie.
pub struct CookieModel {
    pub name: Seq<char>,
    pub value: Seq<char>,
    pub domain: Seq<char>,
    pub path: Seq<char>,
    pub secure: bool,
    pub expires: Option<i128>,
}

/// A validated cookie confined to the context's origin.
pub struct Cookie {
    name: String,
    value: String,
    domain: String,
    path: String,
    secure: bool,
    expires: Option<i128>,
}

impl View for Cookie {
    type V = CookieModel;

    closed spec fn view(&self) -> CookieModel {
        CookieModel {
            name: self.name@,
            value: self.value@,
            domain: self.domain@,
            path: self.path@,
            secure: self.secure,
            expires: self.expires,
        }
    }
}

/// The text of an optional string.
pub open spec fn opt_text(o: Option<String>) -> Option<Seq<char>> {
    match o {
        Some(t) => Some(t@),
        None => None,
    }
}

/// ASCII lowercase of a text.
pub open spec fn lower_text(s: Seq<char>) -> Seq<char> {
    s.map_values(|c: char| ascii_lower(c))
}

/// What a cookie input validates to: a non-empty token name, a cookie-safe
/// value, a path that starts with `/` and has no control or space
/// characters, a non-empty ASCII domain of host characters (kept in
/// lowercase), and an expiry that is a valid RFC 3339 timestamp.
pub open spec fn cookie_of(
    name: Seq<char>,
    value: Seq<char>,
    domain: Seq<char>,
    path: Seq<char>,
    secure: bool,
    expires_at: Option<Seq<char>>,
) -> Result<CookieModel, ContextError> {
    if name.len() == 0 || !all_chars(name, |c: char| is_token_char(c)) || !all_chars(
        value,
        |c: char| is_cookie_value_char(c),
    ) || path.len() == 0 || path[0] != '/' || !all_chars(path, |c: char| is_cookie_path_char(c)) || domain.len()
        == 0 || !all_chars(domain, |c: char| is_domain_char(c)) {
        Err(ContextError::Invalid)
    } else {
        let expires = match expires_at {
            Some(text) => rfc3339_nanos_of(text),
            None => None,
        };
        if expires_at is Some && expires is None {
            Err(ContextError::Invalid)
        } else {
            Ok(CookieModel { name, value, domain: lower_text(domain), path, secure, expires })
        }
    }
}

/// Whether a cookie domain covers a host: a leading dot covers the domain
/// and its subdomains, otherwise the host must be exactly the domain.
pub open spec fn domain_covers(domain: Seq<char>, host: Seq<char>) -> bool {
    if domain.len() > 0 && domain[0] == '.' {
        let d = domain.drop_first();
        d.len() > 0 && (host == d || (host.len() > d.len() && host.skip(host.len() - d.len()) == d
            && host[host.len() - d.len() - 1] == '.'))
    } else {
        host == domain
    }
}

/// Whether a cookie path covers a request path: the same path, or a longer
/// one that continues after a `/`.
pub open spec fn path_covers(cookie_path: Seq<char>, path: Seq<char>) -> bool {
    path == cookie_path || (path.len() >= cookie_path.len() && path.take(cookie_path.len() as int) == cookie_path
        && ((cookie_path.len() > 0 && cookie_path.last() == '/') || (path.len() > cookie_path.len()
        && path[cookie_path.len() as int] == '/')))
}

/// Whether a cookie applies to a URL: its domain covers the host, its path
/// covers the path, and a secure cookie needs HTTPS.
pub open spec fn cookie_applies(cookie: CookieModel, url: Seq<char>) -> bool {
    let (host, path) = match url_location_of(url) {
        Some((host, path, _)) => (host, path),
        None => (Seq::empty(), Seq::empty()),
    };
    let https = match url_parts_of(url) {
        Some((scheme, _, _, _)) => scheme == https_scheme(),
        None => false,
    };
    domain_covers(cookie.domain, host) && path_covers(cookie.path, path) && (!cookie.secure || https)
}

fn lower_string(s: &str) -> (lower: String)
    ensures
        lower@ == lower_text(s@),
{
    let chars = chars_of(s);
    let mut out: Vec<char> = Vec::new();
    let mut i: usize = 0;
    while i < chars.len()
        invariant
            chars@ == s@,
            0 <= i <= chars@.len(),
            out@ == lower_text(chars@.take(i as int)),
        decreases chars@.len() - i,
    {
        out.push(lower_ascii(chars[i]));
        proof {
            assert(lower_text(chars@.take(i + 1)) =~= lower_text(chars@.take(i as int)).push(ascii_lower(chars@[i as int])));
        }
        i += 1;
    }
    proof {
        assert(chars@.take(chars@.len() as int) =~= chars@);
    }
    string_from_chars(out.as_slice())
}

fn ends_with_dot_suffix(host: &[char], d: &[char]) -> (covered: bool)
    ensures
        covered == (host@.len() > d@.len() && host@.skip(host@.len() - d@.len()) == d@
            && host@[host@.len() - d@.len() - 1] == '.'),
{
    if host.len() <= d.len() {
        return false;
    }
    let offset = host.len() - d.len();
    if host[offset - 1] != '.' {
        return false;
    }
    let mut i: usize = 0;
    while i < d.len()
        invariant
            offset == host@.len() - d@.len(),
            offset >= 1,
            host@.len() > d@.len(),
            host@.len() == host.len(),
            d@.len() == d.len(),
            0 <= i <= d@.len(),
            forall|k: int| 0 <= k < i ==> host@[offset + k] == d@[k],
        decreases d@.len() - i,
    {
        assert(offset + i < host@.len());
        if host[offset + i] != d[i] {
            proof {
                assert(host@.skip(offset as int)[i as int] != d@[i as int]);
            }
            return false;
        }
        i += 1;
    }
    proof {
        assert(host@.skip(offset as int) =~= d@);
    }
    true
}

fn same_slice(a: &[char], b: &[char]) -> (same: bool)
    ensures
        same == (a@ == b@),
{
    if a.len() != b.len() {
        return false;
    }
    let mut i: usize = 0;
    while i < a.len()
        invariant
            a@.len() == b@.len(),
            0 <= i <= a@.len(),
            forall|k: int| 0 <= k < i ==> a@[k] == b@[k],
        decreases a@.len() - i,
    {
        if a[i] != b[i] {
            return false;
        }
        i += 1;
    }
    proof {
        assert(a@ =~= b@);
    }
    true
}

fn starts_with(s: &[char], prefix: &[char]) -> (starts: bool)
    ensures
        starts == (s@.len() >= prefix@.len() && s@.take(prefix@.len() as int) == prefix@),
{
    if s.len() < prefix.len() {
        return false;
    }
    let mut i: usize = 0;
    while i < prefix.len()
        invariant
            s@.len() >= prefix@.len(),
            0 <= i <= prefix@.len(),
            forall|k: int| 0 <= k < i ==> s@[k] == prefix@[k],
        decreases prefix@.len() - i,
    {
        if s[i] != prefix[i] {
            proof {
                assert(s@.take(prefix@.len() as int)[i as int] != prefix@[i as int]);
            }
            return false;
        }
        i += 1;
    }
    proof {
        assert(s@.take(prefix@.len() as int) =~= prefix@);
    }
    true
}

impl Cookie {
    /// Validates a cookie offered at the protocol boundary (see [`cookie_of`]).
    pub fn from_input(input: &CookieInput) -> (cookie: Result<Cookie, ContextError>)
        ensures
            cookie is Ok <==> cookie_of(
                input.name@, input.value@, input.domain@, input.path@, input.secure,
                opt_text(input.expires_at),
            ) is Ok,
            cookie matches Ok(c) ==> cookie_of(
                input.name@, input.value@, input.domain@, input.path@, input.secure,
                opt_text(input.expires_at),
            ) == Ok::<CookieModel, ContextError>(c@),
            cookie matches Err(e) ==> e == ContextError::Invalid,
    {
        let path_chars = chars_of(input.path.as_str());
        let name_ok = all_chars_in(input.name.as_str(), 0);
        let value_ok = all_chars_in(input.value.as_str(), 1);
        let path_ok = all_chars_in(input.path.as_str(), 2);
        let domain_ok = all_chars_in(input.domain.as_str(), 3);
        proof {
            assert(char_class(0) == (|c: char| is_token_char(c)));
            assert(char_class(1) == (|c: char| is_cookie_value_char(c)));
            assert(char_class(2) == (|c: char| is_cookie_path_char(c)));
            assert(char_class(3) == (|c: char| is_domain_char(c)));
        }
        if input.name.unicode_len() == 0 || !name_ok || !value_ok || path_chars.len() == 0 || path_chars[0] != '/'
            || !path_ok || input.domain.unicode_len() == 0 || !domain_ok {
            return Err(ContextError::Invalid);
        }
        let expires = match &input.expires_at {
            Some(text) => match parse_rfc3339_nanos(text.as_str()) {
                Some(nanos) => Some(nanos),
                None => return Err(ContextError::Invalid),
            },
            None => None,
        };
        let cookie = Cookie {
            name: input.name.clone(),
            value: input.value.clone(),
            domain: lower_string(input.domain.as_str()),
            path: input.path.clone(),
            secure: input.secure,
            expires,
        };
        proof {
            let model = cookie_of(
                input.name@, input.value@, input.domain@, input.path@, input.secure,
                opt_text(input.expires_at),
            );
            assert(model == Ok::<CookieModel, ContextError>(cookie@));
        }
        Ok(cookie)
    }

    /// Whether this cookie applies to a URL (see [`cookie_applies`]).
    pub fn applies(&self, url: &str) -> (applies: bool)
        ensures
            applies == cookie_applies(self@, url@),
    {
        let (host, path) = match url_location(url) {
            Some((host, path, _)) => (host, path),
            None => (String::new(), String::new()),
        };
        let https = match parse_url_parts(url) {
            Some((scheme, _, _, _)) => {
                let expected: Vec<char> = vec!['h', 't', 't', 'p', 's'];
                proof {
                    assert(expected@ =~= https_scheme());
                }
                let scheme_chars = chars_of(scheme.as_str());
                same_slice(scheme_chars.as_slice(), expected.as_slice())
            }
            None => false,
        };
        let host_chars = chars_of(host.as_str());
        let path_chars = chars_of(path.as_str());
        let domain = chars_of(self.domain.as_str());
        let cookie_path = chars_of(self.path.as_str());
        let domain_ok = if domain.len() > 0 && domain[0] == '.' {
            let d = crate::text::copy_range(domain.as_slice(), 1, domain.len());
            proof {
                assert(d@ =~= domain@.drop_first());
            }
            d.len() > 0 && (same_slice(host_chars.as_slice(), d.as_slice()) || ends_with_dot_suffix(
                host_chars.as_slice(),
                d.as_slice(),
            ))
        } else {
            same_slice(host_chars.as_slice(), domain.as_slice())
        };
        let path_ok = same_slice(path_chars.as_slice(), cookie_path.as_slice()) || (starts_with(
            path_chars.as_slice(),
            cookie_path.as_slice(),
        ) && ((cookie_path.len() > 0 && cookie_path[cookie_path.len() - 1] == '/') || (path_chars.len()
            > cookie_path.len() && path_chars[cookie_path.len()] == '/')));
        proof {
            if url_location_of(url@) is None {
                assert(host@ =~= Seq::<char>::empty());
                assert(path@ =~= Seq::<char>::empty());
            }
        }
        domain_ok && path_ok && (!self.secure || https)
    }
}

} // verus!

verus! {

/// A URL a context may name: a parseable HTTP(S) URL of at most 16 KiB
/// (UTF-8), with no control, space or DEL character and no user info.
pub open spec fn safe_url_of(value: Seq<char>) -> bool {
    match url_parts_of(value) {
        None => false,
        Some((scheme, username, has_password, _)) => utf8_len(value) <= 16_384 && no_char(
            value,
            |c: char| is_url_forbidden_char(c),
        ) && (scheme == http_scheme() || scheme == https_scheme()) && username.len() == 0 && !has_password,
    }
}

/// A secret header value: at most 8 KiB of space and visible ASCII.
pub open spec fn header_text_ok(value: Seq<char>) -> bool {
    value.len() <= 8192 && all_chars(value, |c: char| is_header_char(c))
}

/// Checks a URL a context may name (see [`safe_url_of`]).
pub fn check_safe_url(value: &str) -> (checked: Result<(), ContextError>)
    ensures
        checked is Ok <==> safe_url_of(value@),
        checked matches Err(e) ==> e == ContextError::Invalid,
{
    let (scheme, username, has_password) = match parse_url_parts(value) {
        Some((scheme, username, has_password, _)) => (scheme, username, has_password),
        None => return Err(ContextError::Invalid),
    };
    let allowed = all_chars_in(value, 5);
    proof {
        assert(char_class(5) == (|c: char| !is_url_forbidden_char(c)));
        assert(all_chars(value@, char_class(5)) <==> no_char(value@, |c: char| is_url_forbidden_char(c)));
    }
    if utf8_byte_len(value) > 16_384 || !allowed || !crate::network::is_web_scheme(scheme.as_str())
        || username.unicode_len() > 0 || has_password {
        return Err(ContextError::Invalid);
    }
    Ok(())
}

/// Checks a secret header value (see [`header_text_ok`]) and copies it.
pub fn sensitive_text(value: &str) -> (text: Result<String, ContextError>)
    ensures
        text is Ok <==> header_text_ok(value@),
        text matches Ok(t) ==> t@ == value@,
        text matches Err(e) ==> e == ContextError::Invalid,
{
    let chars = chars_of(value);
    if chars.len() > 8192 {
        return Err(ContextError::Invalid);
    }
    let mut i: usize = 0;
    while i < chars.len()
        invariant
            chars@ == value@,
            0 <= i <= chars@.len(),
            forall|k: int| 0 <= k < i ==> is_header_char(#[trigger] chars@[k]),
        decreases chars@.len() - i,
    {
        let n = chars[i] as u32;
        if n < 0x20 || n > 0x7e {
            return Err(ContextError::Invalid);
        }
        i += 1;
    }
    Ok(string_from_chars(chars.as_slice()))
}

/// Whether a URL has a fragment.
pub open spec fn has_fragment(url: Seq<char>) -> bool {
    url_location_of(url) matches Some((_, _, fragment)) && fragment
}

/// The referrer a context sends: a safe URL of the target's origin, without
/// a fragment, usable as a secret header value.
pub open spec fn referrer_of(target: Seq<char>, referrer: Seq<char>) -> Result<Seq<char>, ContextError> {
    if !safe_url_of(referrer) || url_origin_of(referrer) != url_origin_of(target) || has_fragment(referrer)
        || !header_text_ok(referrer) {
        Err(ContextError::Invalid)
    } else {
        Ok(referrer)
    }
}

/// Checks a referrer for a target (see [`referrer_of`]).
pub fn referrer_value(target: &str, referrer: &str) -> (value: Result<String, ContextError>)
    ensures
        value is Ok <==> referrer_of(target@, referrer@) is Ok,
        value matches Ok(v) ==> referrer_of(target@, referrer@) == Ok::<Seq<char>, ContextError>(v@),
        value matches Err(e) ==> e == ContextError::Invalid,
{
    match check_safe_url(referrer) {
        Ok(()) => {}
        Err(e) => return Err(e),
    }
    let same_origin = match (url_origin(referrer), url_origin(target)) {
        (Some(a), Some(b)) => same_text(a.as_str(), b.as_str()),
        (None, None) => true,
        _ => false,
    };
    let fragment = match url_location(referrer) {
        Some((_, _, fragment)) => fragment,
        None => false,
    };
    if !same_origin || fragment {
        return Err(ContextError::Invalid);
    }
    sensitive_text(referrer)
}

/// `Basic`
pub open spec fn basic_scheme() -> Seq<char> {
    seq!['B', 'a', 's', 'i', 'c']
}

/// `Bearer`
pub open spec fn bearer_scheme() -> Seq<char> {
    seq!['B', 'e', 'a', 'r', 'e', 'r']
}

/// The `Authorization` value a context sends: only to an HTTPS target, for
/// the `Basic` or `Bearer` scheme, with a non-empty visible-ASCII
/// credential; the value is the scheme, a space and the credential.
pub open spec fn authorization_of(target: Seq<char>, scheme: Seq<char>, credential: Seq<char>) -> Result<Seq<char>, ContextError> {
    let https = url_parts_of(target) matches Some((s, _, _, _)) && s == https_scheme();
    let text = scheme + seq![' '] + credential;
    if !https || !(scheme == basic_scheme() || scheme == bearer_scheme()) || credential.len() == 0 || !all_chars(
        credential,
        |c: char| is_visible_char(c),
    ) || !header_text_ok(text) {
        Err(ContextError::Invalid)
    } else {
        Ok(text)
    }
}

/// Checks an `Authorization` credential for a target (see [`authorization_of`]).
pub fn authorization_value(target: &str, input: &AuthorizationInput) -> (value: Result<String, ContextError>)
    ensures
        value is Ok <==> authorization_of(target@, input.scheme@, input.value@) is Ok,
        value matches Ok(v) ==> authorization_of(target@, input.scheme@, input.value@) == Ok::<Seq<char>, ContextError>(v@),
        value matches Err(e) ==> e == ContextError::Invalid,
{
    let https = match parse_url_parts(target) {
        Some((scheme, _, _, _)) => {
            let expected: Vec<char> = vec!['h', 't', 't', 'p', 's'];
            proof {
                assert(expected@ =~= https_scheme());
            }
            let scheme_chars = chars_of(scheme.as_str());
            same_slice(scheme_chars.as_slice(), expected.as_slice())
        }
        None => false,
    };
    let scheme = chars_of(input.scheme.as_str());
    let basic: Vec<char> = vec!['B', 'a', 's', 'i', 'c'];
    let bearer: Vec<char> = vec!['B', 'e', 'a', 'r', 'e', 'r'];
    proof {
        assert(basic@ =~= basic_scheme());
        assert(bearer@ =~= bearer_scheme());
        assert(char_class(4) == (|c: char| is_visible_char(c)));
    }
    let known = same_slice(scheme.as_slice(), basic.as_slice()) || same_slice(scheme.as_slice(), bearer.as_slice());
    let visible = all_chars_in(input.value.as_str(), 4);
    if !https || !known || input.value.unicode_len() == 0 || !visible {
        return Err(ContextError::Invalid);
    }
    let mut text = scheme;
    text.push(' ');
    let credential = chars_of(input.value.as_str());
    let mut i: usize = 0;
    let ghost start = text@;
    while i < credential.len()
        invariant
            credential@ == input.value@,
            0 <= i <= credential@.len(),
            text@ == start + credential@.take(i as int),
        decreases credential@.len() - i,
    {
        text.push(credential[i]);
        proof {
            assert(credential@.take(i + 1) =~= credential@.take(i as int).push(credential@[i as int]));
        }
        i += 1;
    }
    proof {
        assert(credential@.take(credential@.len() as int) =~= credential@);
        assert(text@ =~= input.scheme@ + seq![' '] + input.value@);
    }
    let joined = string_from_chars(text.as_slice());
    sensitive_text(joined.as_str())
}

} // verus!

verus! {

/// Whether cookie `a` of `cookies` goes before cookie `b`: the longer path
/// (in UTF-8 bytes) first, and equal paths in input order.
pub open spec fn path_before(cookies: Seq<CookieModel>, a: int, b: int) -> bool {
    utf8_len(cookies[a].path) > utf8_len(cookies[b].path) || (utf8_len(cookies[a].path) == utf8_len(cookies[b].path)
        && a < b)
}

/// Whether `order` lists the positions of `cookies` once each, longest path
/// first and equal paths in input order.
pub open spec fn path_order(cookies: Seq<CookieModel>, order: Seq<int>) -> bool {
    &&& order.len() == cookies.len()
    &&& forall|i: int| 0 <= i < order.len() ==> 0 <= #[trigger] order[i] < cookies.len()
    &&& forall|i: int, j: int| 0 <= i < j < order.len() ==> path_before(cookies, #[trigger] order[i], #[trigger] order[j])
}

/// Whether `sorted` holds `cookies` longest path first, equal paths in input
/// order (a stable sort by descending path length).
pub open spec fn sorted_by_path(cookies: Seq<CookieModel>, sorted: Seq<CookieModel>) -> bool {
    exists|order: Seq<int>| path_order(cookies, order) && sorted == order.map_values(|k: int| cookies[k])
}

/// The plain readings of cookies.
pub open spec fn cookie_views(cookies: Seq<Cookie>) -> Seq<CookieModel> {
    cookies.map_values(|c: Cookie| c@)
}

/// Orders cookies longest path first, keeping the input order of equal
/// paths.
pub fn sort_by_path(cookies: Vec<Cookie>) -> (sorted: Vec<Cookie>)
    ensures
        sorted_by_path(cookie_views(cookies@), cookie_views(sorted@)),
{
    let ghost input = cookie_views(cookies@);
    let n = cookies.len();
    let mut remaining = cookies;
    let mut sorted: Vec<Cookie> = Vec::new();
    let mut lens: Vec<u128> = Vec::new();
    let ghost mut order: Seq<int> = Seq::empty();
    let mut k: usize = 0;
    while k < n
        invariant
            n == input.len(),
            0 <= k <= n,
            cookie_views(remaining@) == input.skip(k as int),
            sorted@.len() == k,
            lens@.len() == k,
            order.len() == k,
            forall|i: int| 0 <= i < k ==> #[trigger] lens@[i] == utf8_len(sorted@[i]@.path),
            forall|i: int| 0 <= i < k ==> 0 <= #[trigger] order[i] < k,
            forall|i: int| 0 <= i < k ==> sorted@[i]@ == input[#[trigger] order[i]],
            forall|i: int, j: int| 0 <= i < j < k ==> path_before(input, #[trigger] order[i], #[trigger] order[j]),
        decreases n - k,
    {
        let ghost before_remaining = remaining@;
        proof {
            assert(cookie_views(remaining@).len() == remaining@.len());
            assert(input.skip(k as int).len() == n - k);
            assert(cookie_views(remaining@)[0] == input[k as int]);
        }
        let cookie = remaining.remove(0);
        proof {
            assert(remaining@ == before_remaining.remove(0));
            assert forall|j: int| 0 <= j < remaining@.len() implies #[trigger] cookie_views(remaining@)[j] == input.skip(k + 1)[j] by {
                assert(remaining@[j] == before_remaining[j + 1]);
                assert(cookie_views(before_remaining)[j + 1] == input.skip(k as int)[j + 1]);
            }
            assert(cookie_views(remaining@) =~= input.skip(k + 1));
            assert(cookie@ == input[k as int]);
        }
        let len = utf8_byte_len(cookie.path.as_str());
        let mut p: usize = 0;
        while p < sorted.len() && lens[p] >= len
            invariant
                0 <= p <= k,
                sorted@.len() == k,
                lens@.len() == k,
                forall|i: int| 0 <= i < p ==> #[trigger] lens@[i] >= len,
            decreases k - p,
        {
            p += 1;
        }
        proof {
            assert forall|j: int| p <= j < k implies #[trigger] lens@[j] < len by {
                if j > p {
                    assert(path_before(input, order[p as int], order[j]));
                    assert(sorted@[p as int]@ == input[order[p as int]]);
                    assert(sorted@[j]@ == input[order[j]]);
                }
            }
        }
        let ghost before_sorted = sorted@;
        let ghost before_lens = lens@;
        let ghost before_order = order;
        sorted.insert(p, cookie);
        lens.insert(p, len);
        proof {
            order = order.insert(p as int, k as int);
            assert forall|i: int| 0 <= i < k + 1 implies #[trigger] lens@[i] == utf8_len(sorted@[i]@.path) by {
                if i < p {
                    assert(lens@[i] == before_lens[i] && sorted@[i] == before_sorted[i]);
                } else if i > p {
                    assert(lens@[i] == before_lens[i - 1] && sorted@[i] == before_sorted[i - 1]);
                }
            }
            assert forall|i: int| 0 <= i < k + 1 implies 0 <= #[trigger] order[i] < k + 1 by {
                if i < p {
                    assert(order[i] == before_order[i]);
                } else if i > p {
                    assert(order[i] == before_order[i - 1]);
                }
            }
            assert forall|i: int| 0 <= i < k + 1 implies sorted@[i]@ == input[#[trigger] order[i]] by {
                if i < p {
                    assert(order[i] == before_order[i] && sorted@[i] == before_sorted[i]);
                } else if i > p {
                    assert(order[i] == before_order[i - 1] && sorted@[i] == before_sorted[i - 1]);
                } else {
                    assert(order[i] == k && sorted@[i] == cookie);
                }
            }
            assert forall|i: int, j: int| 0 <= i < j < k + 1 implies path_before(input, #[trigger] order[i], #[trigger] order[j]) by {
                if j < p {
                    assert(order[i] == before_order[i] && order[j] == before_order[j]);
                } else if j == p {
                    assert(order[i] == before_order[i] && order[j] == k);
                    assert(before_lens[i] >= len);
                    assert(before_sorted[i]@ == input[before_order[i]]);
                    assert(cookie@ == input[k as int]);
                } else if i < p {
                    assert(order[i] == before_order[i] && order[j] == before_order[j - 1]);
                } else if i == p {
                    assert(order[i] == k && order[j] == before_order[j - 1]);
                    assert(before_lens[j - 1] < len);
                    assert(before_sorted[j - 1]@ == input[before_order[j - 1]]);
                    assert(cookie@ == input[k as int]);
                } else {
                    assert(order[i] == before_order[i - 1] && order[j] == before_order[j - 1]);
                }
            }
        }
        k += 1;
    }
    proof {
        assert(cookie_views(sorted@) =~= order.map_values(|k: int| input[k]));
        assert(path_order(input, order));
    }
    sorted
}

} // verus!

verus! {

/// The plain reading of a request context.
pub struct ContextModel {
    pub origin: Seq<char>,
    pub cookies: Seq<CookieModel>,
    pub authorization: Option<Seq<char>>,
    pub referrer: Option<Seq<char>>,
}

/// Validated secrets scoped to one exact origin. Intentionally not
/// serializable.
pub struct RequestContext {
    origin: String,
    cookies: Vec<Cookie>,
    authorization: Option<String>,
    referrer: Option<String>,
}

impl View for RequestContext {
    type V = ContextModel;

    closed spec fn view(&self) -> ContextModel {
        ContextModel {
            origin: self.origin@,
            cookies: cookie_views(self.cookies@),
            authorization: opt_text(self.authorization),
            referrer: opt_text(self.referrer),
        }
    }
}

/// Headers a context adds to one request; each is a secret value.
pub struct ContextHeaders {
    pub authorization: Option<String>,
    pub referrer: Option<String>,
    pub cookie: Option<String>,
}

/// `name=value`
pub open spec fn cookie_pair(cookie: CookieModel) -> Seq<char> {
    cookie.name + seq!['='] + cookie.value
}

/// The `Cookie` header for a URL: the pairs of the cookies that apply, in
/// order, separated by `; `.
pub open spec fn cookie_header_of(cookies: Seq<CookieModel>, url: Seq<char>) -> Seq<char>
    decreases cookies.len(),
{
    if cookies.len() == 0 {
        Seq::empty()
    } else {
        let rest = cookie_header_of(cookies.drop_last(), url);
        let cookie = cookies.last();
        if cookie_applies(cookie, url) {
            if rest.len() == 0 {
                cookie_pair(cookie)
            } else {
                rest + seq![';', ' '] + cookie_pair(cookie)
            }
        } else {
            rest
        }
    }
}

/// Whether a cookie's lifetime has elapsed at `now`.
pub open spec fn expired_at(cookie: CookieModel, now: i128) -> bool {
    cookie.expires matches Some(e) && e <= now
}

/// Whether some cookie's lifetime has elapsed at `now`.
pub open spec fn any_expired(cookies: Seq<CookieModel>, now: i128) -> bool {
    exists|i: int| 0 <= i < cookies.len() && expired_at(#[trigger] cookies[i], now)
}

/// The length of an optional text.
pub open spec fn opt_len(text: Option<Seq<char>>) -> int {
    match text {
        Some(t) => t.len() as int,
        None => 0,
    }
}

/// The headers a context adds to a request for `url` at `now` (nanoseconds
/// after the Unix epoch): only for the context's own origin, never with an
/// expired cookie (whether or not it applies), with the cookies that apply
/// to the URL, and at most 8 KiB of header values in all.
pub open spec fn headers_of(context: ContextModel, url: Seq<char>, now: i128)
    -> Result<(Option<Seq<char>>, Option<Seq<char>>, Option<Seq<char>>), ContextError> {
    if url_origin_of(url) != Some(context.origin) {
        Err(ContextError::Invalid)
    } else if any_expired(context.cookies, now) {
        Err(ContextError::Expired)
    } else {
        let cookie = cookie_header_of(context.cookies, url);
        if cookie.len() > 0 && !header_text_ok(cookie) {
            Err(ContextError::Invalid)
        } else if opt_len(context.authorization) + opt_len(context.referrer) + cookie.len() > 8192 {
            Err(ContextError::Invalid)
        } else {
            Ok((context.authorization, context.referrer, if cookie.len() > 0 { Some(cookie) } else { None }))
        }
    }
}

/// The plain reading of produced headers.
pub open spec fn headers_view(headers: ContextHeaders) -> (Option<Seq<char>>, Option<Seq<char>>, Option<Seq<char>>) {
    (opt_text(headers.authorization), opt_text(headers.referrer), opt_text(headers.cookie))
}

fn push_text(out: &mut Vec<char>, text: &str)
    ensures
        final(out)@ == old(out)@ + text@,
{
    let chars = chars_of(text);
    let mut i: usize = 0;
    let ghost start = out@;
    while i < chars.len()
        invariant
            chars@ == text@,
            0 <= i <= chars@.len(),
            out@ == start + chars@.take(i as int),
        decreases chars@.len() - i,
    {
        out.push(chars[i]);
        proof {
            assert(chars@.take(i + 1) =~= chars@.take(i as int).push(chars@[i as int]));
        }
        i += 1;
    }
    proof {
        assert(chars@.take(chars@.len() as int) =~= chars@);
    }
}

fn copy_text(text: &Option<String>) -> (copy: Option<String>)
    ensures
        opt_text(copy) == opt_text(*text),
{
    match text {
        Some(t) => Some(string_from_chars(chars_of(t.as_str()).as_slice())),
        None => None,
    }
}

impl RequestContext {
    /// The headers for a request to `url` at `now` (see [`headers_of`]);
    /// scope and expiry are re-evaluated before every request, redirects
    /// included.
    pub fn headers_at(&self, url: &str, now: i128) -> (headers: Result<ContextHeaders, ContextError>)
        ensures
            headers is Ok <==> headers_of(self@, url@, now) is Ok,
            headers matches Ok(h) ==> headers_of(self@, url@, now) == Ok::<(Option<Seq<char>>, Option<Seq<char>>, Option<Seq<char>>), ContextError>(headers_view(h)),
            headers matches Err(e) ==> headers_of(self@, url@, now) == Err::<(Option<Seq<char>>, Option<Seq<char>>, Option<Seq<char>>), ContextError>(e),
    {
        let same_origin = match url_origin(url) {
            Some(origin) => same_text(origin.as_str(), self.origin.as_str()),
            None => false,
        };
        if !same_origin {
            return Err(ContextError::Invalid);
        }
        let ghost cookies = cookie_views(self.cookies@);
        let mut header: Vec<char> = Vec::new();
        let mut i: usize = 0;
        while i < self.cookies.len()
            invariant
                cookies == cookie_views(self.cookies@),
                cookies == self@.cookies,
                url_origin_of(url@) == Some(self@.origin),
                0 <= i <= cookies.len(),
                header@ == cookie_header_of(cookies.take(i as int), url@),
                !any_expired(cookies.take(i as int), now),
            decreases cookies.len() - i,
        {
            let cookie = &self.cookies[i];
            proof {
                assert(cookies.take(i + 1).drop_last() =~= cookies.take(i as int));
                assert(cookies.take(i + 1).last() == cookies[i as int]);
                assert(cookies[i as int] == cookie@);
            }
            let expired = match cookie.expires {
                Some(e) => e <= now,
                None => false,
            };
            if expired {
                proof {
                    assert(expired_at(cookies[i as int], now));
                    assert(any_expired(cookies, now));
                }
                return Err(ContextError::Expired);
            }
            if cookie.applies(url) {
                if header.len() > 0 {
                    header.push(';');
                    header.push(' ');
                }
                push_text(&mut header, cookie.name.as_str());
                header.push('=');
                push_text(&mut header, cookie.value.as_str());
            }
            proof {
                assert(header@ =~= cookie_header_of(cookies.take(i + 1), url@));
                assert forall|k: int| 0 <= k < cookies.take(i + 1).len() implies !expired_at(#[trigger] cookies.take(i + 1)[k], now) by {
                    if k < i {
                        assert(cookies.take(i + 1)[k] == cookies.take(i as int)[k]);
                    }
                }
            }
            i += 1;
        }
        proof {
            assert(cookies.take(cookies.len() as int) =~= cookies);
        }
        let cookie = if header.len() > 0 {
            let text = string_from_chars(header.as_slice());
            match sensitive_text(text.as_str()) {
                Ok(t) => Some(t),
                Err(e) => return Err(e),
            }
        } else {
            None
        };
        let authorization_len: usize = match &self.authorization {
            Some(t) => t.unicode_len(),
            None => 0,
        };
        let referrer_len: usize = match &self.referrer {
            Some(t) => t.unicode_len(),
            None => 0,
        };
        if authorization_len as u128 + referrer_len as u128 + header.len() as u128 > 8192 {
            return Err(ContextError::Invalid);
        }
        Ok(ContextHeaders { authorization: copy_text(&self.authorization), referrer: copy_text(&self.referrer), cookie })
    }

    /// The headers for a request to `url` now, by the UTC clock.
    pub fn headers(&self, url: &str) -> (headers: Result<ContextHeaders, ContextError>)
        ensures
            exists|now: i128| {
                &&& headers is Ok <==> headers_of(self@, url@, now) is Ok
                &&& headers matches Ok(h) ==> headers_of(self@, url@, now) == Ok::<(Option<Seq<char>>, Option<Seq<char>>, Option<Seq<char>>), ContextError>(headers_view(h))
                &&& headers matches Err(e) ==> headers_of(self@, url@, now) == Err::<(Option<Seq<char>>, Option<Seq<char>>, Option<Seq<char>>), ContextError>(e)
            },
    {
        let now = utc_now_nanos();
        self.headers_at(url, now)
    }
}

} // verus!

verus! {

/// What a cookie input validates to (see [`cookie_of`]).
pub open spec fn cookie_input_model(input: CookieInput) -> Result<CookieModel, ContextError> {
    cookie_of(input.name@, input.value@, input.domain@, input.path@, input.secure, opt_text(input.expires_at))
}

/// Whether a cookie input is valid and applies to the target.
pub open spec fn cookie_input_applies(target: Seq<char>, input: CookieInput) -> bool {
    cookie_input_model(input) matches Ok(model) && cookie_applies(model, target)
}

/// The validated cookies of valid inputs, in input order.
pub open spec fn cookie_models(inputs: Seq<CookieInput>) -> Seq<CookieModel> {
    inputs.map_values(|input: CookieInput| cookie_input_model(input)->Ok_0)
}

/// Whether a context input is acceptable for a target: a safe target URL
/// with an origin; a valid same-origin referrer, if any; a valid
/// authorization, if any; and at most 256 cookies, each valid and applying
/// to the target.
pub open spec fn context_input_ok(target: Seq<char>, input: RequestContextInput) -> bool {
    &&& safe_url_of(target)
    &&& url_origin_of(target) is Some
    &&& (input.referrer matches Some(r) ==> referrer_of(target, r@) is Ok)
    &&& (input.credentials matches Some(c) ==> (c.authorization matches Some(a) ==> authorization_of(
        target,
        a.scheme@,
        a.value@,
    ) is Ok))
    &&& (input.credentials matches Some(c) ==> (c.cookies matches Some(list) ==> list@.len() <= 256 && forall|i: int|
        0 <= i < list@.len() ==> cookie_input_applies(target, #[trigger] list@[i])))
}

/// Whether `context` is what an acceptable input builds for a target: the
/// target's origin, the referrer and authorization values, and the cookies
/// sorted longest path first.
pub open spec fn built_context(target: Seq<char>, input: RequestContextInput, context: ContextModel) -> bool {
    &&& context.origin == url_origin_of(target)->Some_0
    &&& context.referrer == match input.referrer {
        Some(r) => Some(referrer_of(target, r@)->Ok_0),
        None => None,
    }
    &&& context.authorization == match input.credentials {
        Some(c) => match c.authorization {
            Some(a) => Some(authorization_of(target, a.scheme@, a.value@)->Ok_0),
            None => None,
        },
        None => None,
    }
    &&& match input.credentials {
        Some(c) => match c.cookies {
            Some(list) => sorted_by_path(cookie_models(list@), context.cookies),
            None => context.cookies.len() == 0,
        },
        None => context.cookies.len() == 0,
    }
}

/// The outcome of building a context at `now`: an unacceptable input is
/// `Invalid`; otherwise the built context, unless its headers for the target
/// itself fail at `now`, which is then the error.
pub open spec fn context_outcome(
    target: Seq<char>,
    input: RequestContextInput,
    now: i128,
    outcome: Result<ContextModel, ContextError>,
) -> bool {
    &&& !context_input_ok(target, input) ==> outcome == Err::<ContextModel, ContextError>(ContextError::Invalid)
    &&& context_input_ok(target, input) ==> match outcome {
        Ok(context) => built_context(target, input, context) && headers_of(context, target, now) is Ok,
        Err(e) => exists|context: ContextModel| built_context(target, input, context)
            && headers_of(context, target, now) == Err::<(Option<Seq<char>>, Option<Seq<char>>, Option<Seq<char>>), ContextError>(e),
    }
}

/// The plain reading of a built context or its error.
pub open spec fn context_view(context: Result<RequestContext, ContextError>) -> Result<ContextModel, ContextError> {
    match context {
        Ok(c) => Ok(c@),
        Err(e) => Err(e),
    }
}

impl RequestContext {
    /// Validates input from the protocol boundary at `now` (see
    /// [`context_outcome`]).
    #[verifier::loop_isolation(false)]
    pub fn new_at(target: &str, input: &RequestContextInput, now: i128) -> (context: Result<RequestContext, ContextError>)
        ensures
            context_outcome(target@, *input, now, context_view(context)),
    {
        match check_safe_url(target) {
            Ok(()) => {}
            Err(e) => return Err(e),
        }
        let origin = match url_origin(target) {
            Some(o) => o,
            None => return Err(ContextError::Invalid),
        };
        let referrer = match &input.referrer {
            Some(r) => match referrer_value(target, r.as_str()) {
                Ok(v) => Some(v),
                Err(e) => return Err(e),
            },
            None => None,
        };
        let mut authorization: Option<String> = None;
        let mut cookies: Vec<Cookie> = Vec::new();
        proof {
            assert(cookie_views(cookies@) =~= Seq::<CookieModel>::empty());
        }
        if let Some(credentials) = &input.credentials {
            if let Some(a) = &credentials.authorization {
                match authorization_value(target, a) {
                    Ok(v) => authorization = Some(v),
                    Err(e) => return Err(e),
                }
            }
            if let Some(list) = &credentials.cookies {
                if list.len() > 256 {
                    return Err(ContextError::Invalid);
                }
                let mut unsorted: Vec<Cookie> = Vec::new();
                let mut i: usize = 0;
                while i < list.len()
                    invariant
                        0 <= i <= list@.len(),
                        unsorted@.len() == i,
                        forall|k: int| 0 <= k < i ==> cookie_input_applies(target@, #[trigger] list@[k]),
                        forall|k: int| 0 <= k < i ==> (#[trigger] unsorted@[k])@ == cookie_input_model(list@[k])->Ok_0,
                    decreases list@.len() - i,
                {
                    let cookie = match Cookie::from_input(&list[i]) {
                        Ok(c) => c,
                        Err(e) => {
                            proof {
                                assert(!cookie_input_applies(target@, list@[i as int]));
                            }
                            return Err(e);
                        }
                    };
                    if !cookie.applies(target) {
                        proof {
                            assert(!cookie_input_applies(target@, list@[i as int]));
                        }
                        return Err(ContextError::Invalid);
                    }
                    unsorted.push(cookie);
                    i += 1;
                }
                proof {
                    assert(cookie_views(unsorted@) =~= cookie_models(list@));
                }
                cookies = sort_by_path(unsorted);
            }
        }
        let context = RequestContext { origin, cookies, authorization, referrer };
        match context.headers_at(target, now) {
            Ok(_) => Ok(context),
            Err(e) => Err(e),
        }
    }

    /// Validates input from the protocol boundary now, by the UTC clock
    /// (see [`context_outcome`]).
    pub fn new(target: &str, input: &RequestContextInput) -> (context: Result<RequestContext, ContextError>)
        ensures
            exists|now: i128| context_outcome(target@, *input, now, context_view(context)),
    {
        let now = utc_now_nanos();
        RequestContext::new_at(target, input, now)
    }
}

} // verus!

verus! {

/// Expiry is final and scope is exact: headers are only ever produced for
/// the context's own origin; once a cookie has expired, every later request
/// fails with `Expired`, whatever the URL of that origin; and a request
/// before every expiry is never refused for expiry.
pub proof fn lemma_expiry_is_final(context: ContextModel, url: Seq<char>, now: i128, later: i128)
    requires
        now <= later,
    ensures
        headers_of(context, url, now) is Ok ==> url_origin_of(url) == Some(context.origin),
        url_origin_of(url) == Some(context.origin) && any_expired(context.cookies, now)
            ==> headers_of(context, url, later) == Err::<(Option<Seq<char>>, Option<Seq<char>>, Option<Seq<char>>), ContextError>(ContextError::Expired),
        (forall|i: int| 0 <= i < context.cookies.len() ==> !expired_at(#[trigger] context.cookies[i], later))
            ==> headers_of(context, url, later) != Err::<(Option<Seq<char>>, Option<Seq<char>>, Option<Seq<char>>), ContextError>(ContextError::Expired),
{
    if any_expired(context.cookies, now) {
        let i = choose|i: int| 0 <= i < context.cookies.len() && expired_at(#[trigger] context.cookies[i], now);
        assert(expired_at(context.cookies[i], later));
    }

}

} // verus!
