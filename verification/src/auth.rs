//! The verified parts of the login flow: the identity-provider URLs, the
//! session claims and cookies, and the choice of user identity from a decoded
//! identity token. Network calls and token signatures live outside the
//! library.

use base64::Engine;
use vstd::prelude::*;
use vstd::string::StringSliceAdditionalSpecFns;

use crate::config::AppConfig;

verus! {

/// Claims of the session token this application issues after a login:
/// subject, display name, address, and the validity window as Unix seconds.
pub struct SessionClaims {
    pub sub: String,
    pub name: String,
    pub email: String,
    pub exp: i64,
    pub iat: i64,
}

/// What the identity provider's token endpoint answers.
pub struct TokenResponse {
    pub id_token: Option<String>,
    pub access_token: Option<String>,
}

/// The claims read from the provider's identity token.
pub struct MicrosoftIdClaims {
    pub oid: Option<String>,
    pub sub: Option<String>,
    pub name: Option<String>,
    pub preferred_username: Option<String>,
}

/// Query parameters of the login callback: a code on success, an error
/// otherwise.
pub struct CallbackQuery {
    pub code: Option<String>,
    pub error: Option<String>,
    pub error_description: Option<String>,
}

/// How many seconds a session lasts before the user must log in again.
pub const SESSION_LIFETIME_SECONDS: i64 = 86400;

/// The provider-configuration discovery URL of a tenant.
pub fn discovery_url(tenant_id: &str) -> (r: String)
    ensures
        r@ == "https://login.microsoftonline.com/"@ + tenant_id@
            + "/v2.0/.well-known/openid-configuration"@,
{
    String::from_str("https://login.microsoftonline.com/").concat(tenant_id).concat(
        "/v2.0/.well-known/openid-configuration",
    )
}

/// Whether a byte stays bare in a URL encoding: ASCII alphanumerics and
/// `-`, `.`, `_`, `~`.
pub open spec fn is_url_unreserved(b: u8) -> bool {
    ||| (48 <= b && b <= 57)
    ||| (65 <= b && b <= 90)
    ||| (97 <= b && b <= 122)
    ||| b == 45
    ||| b == 46
    ||| b == 95
    ||| b == 126
}

/// The uppercase hexadecimal character of one value below sixteen.
pub open spec fn hex_upper_char(d: u8) -> char {
    if d == 0 {
        '0'
    } else if d == 1 {
        '1'
    } else if d == 2 {
        '2'
    } else if d == 3 {
        '3'
    } else if d == 4 {
        '4'
    } else if d == 5 {
        '5'
    } else if d == 6 {
        '6'
    } else if d == 7 {
        '7'
    } else if d == 8 {
        '8'
    } else if d == 9 {
        '9'
    } else if d == 10 {
        'A'
    } else if d == 11 {
        'B'
    } else if d == 12 {
        'C'
    } else if d == 13 {
        'D'
    } else if d == 14 {
        'E'
    } else {
        'F'
    }
}

/// The URL encoding of a byte sequence: unreserved bytes stand bare, every
/// other byte becomes a percent sign and two uppercase hexadecimal digits.
pub open spec fn url_encoded_bytes(bs: Seq<u8>) -> Seq<char>
    decreases bs.len(),
{
    if bs.len() == 0 {
        seq![]
    } else {
        (if is_url_unreserved(bs[0]) {
            seq![bs[0] as char]
        } else {
            seq!['%', hex_upper_char(bs[0] / 16), hex_upper_char(bs[0] % 16)]
        }) + url_encoded_bytes(bs.drop_first())
    }
}

/// Percent-encodes a string for use in a URL query.
///
/// Relies on `urlencoding::encode`, which percent-encodes every byte of the
/// UTF-8 form except ASCII alphanumerics and `-`, `.`, `_`, `~`, with
/// uppercase hexadecimal digits.
#[verifier::external_body]
fn url_encode(s: &str) -> (r: String)
    ensures
        r@ == url_encoded_bytes(s.spec_bytes()),
{
    urlencoding::encode(s).into_owned()
}

/// The URL the login flow sends the user to: the tenant's authorize endpoint
/// carrying this application's client id and encoded callback URL.
pub fn authorize_url(config: &AppConfig) -> (r: String)
    ensures
        r@ == "https://login.microsoftonline.com/"@ + config.azure_tenant_id@
            + "/oauth2/v2.0/authorize?client_id="@ + config.azure_client_id@
            + "&response_type=code&redirect_uri="@ + url_encoded_bytes(
            redirect_uri_bytes(config.app_url@),
        ) + "&scope=openid%20profile%20email&response_mode=query"@,
{
    let redirect_uri = String::from_str(config.app_url.as_str()).concat("/api/auth/callback");
    let encoded = url_encode(redirect_uri.as_str());
    String::from_str("https://login.microsoftonline.com/").concat(
        config.azure_tenant_id.as_str(),
    ).concat("/oauth2/v2.0/authorize?client_id=").concat(config.azure_client_id.as_str()).concat(
        "&response_type=code&redirect_uri=",
    ).concat(encoded.as_str()).concat("&scope=openid%20profile%20email&response_mode=query")
}

/// The UTF-8 bytes of the callback redirect URI for a given application URL.
pub open spec fn redirect_uri_bytes(app_url: Seq<char>) -> Seq<u8> {
    vstd::utf8::encode_utf8(app_url + "/api/auth/callback"@)
}

/// The token endpoint of a tenant, where an authorization code is exchanged.
pub fn token_url(tenant_id: &str) -> (r: String)
    ensures
        r@ == "https://login.microsoftonline.com/"@ + tenant_id@ + "/oauth2/v2.0/token"@,
{
    String::from_str("https://login.microsoftonline.com/").concat(tenant_id).concat(
        "/oauth2/v2.0/token",
    )
}

/// The bytes a URL-safe unpadded base64 text decodes to, or nothing when the
/// text is not valid base64 of that alphabet.
pub uninterp spec fn b64url_decoded(s: Seq<char>) -> Option<Seq<u8>>;

/// Decodes URL-safe unpadded base64.
///
/// Relies on base64's `URL_SAFE_NO_PAD` engine: success and the decoded bytes
/// are a function of the text alone.
#[verifier::external_body]
fn b64url_decode(s: &str) -> (r: Option<Vec<u8>>)
    ensures
        r is Some <==> b64url_decoded(s@) is Some,
        r matches Some(v) ==> Some(v@) == b64url_decoded(s@),
{
    match base64::engine::general_purpose::URL_SAFE_NO_PAD.decode(s) {
        Ok(v) => Some(v),
        Err(_) => None,
    }
}

/// The payload bytes of a compact JWT: the part between the two dots,
/// base64-decoded. Nothing when the token does not have exactly three parts
/// or the payload is not valid base64.
pub open spec fn jwt_payload_of(token: Seq<char>) -> Option<Seq<u8>> {
    let i = first_index_of(token, '.');
    if i == token.len() {
        None
    } else {
        let rest = token.skip(i + 1);
        let j = first_index_of(rest, '.');
        if j == rest.len() {
            None
        } else {
            let payload = rest.take(j);
            if contains_dot(rest.skip(j + 1)) {
                None
            } else {
                b64url_decoded(payload)
            }
        }
    }
}

/// Whether a dot occurs in the sequence.
pub open spec fn contains_dot(s: Seq<char>) -> bool {
    exists|k: int| 0 <= k < s.len() && s[k] == '.'
}

/// Splitting on the first dot: before it nothing is a dot; what follows it is
/// the rest.
proof fn lemma_first_dot_split(s: Seq<char>)
    ensures
        !contains_dot(s) <==> first_index_of(s, '.') == s.len(),
{
    lemma_first_index_bounds(s, '.');
    if first_index_of(s, '.') == s.len() {
        assert forall|k: int| 0 <= k < s.len() implies s[k] != '.' by {}
    }
}

/// The decoded payload of an identity token in compact JWT form
/// (`header.payload.signature`), or nothing when the token does not have
/// exactly three parts or its payload is not URL-safe base64. What the bytes
/// mean is for the caller to decide.
pub fn jwt_payload(token: &str) -> (r: Option<Vec<u8>>)
    ensures
        r is Some <==> jwt_payload_of(token@) is Some,
        r matches Some(v) ==> Some(v@) == jwt_payload_of(token@),
{
    let n = token.unicode_len();
    let i = find_char_pos(token, '.');
    proof {
        lemma_first_index_bounds(token@, '.');
    }
    if i == n {
        return None;
    }
    let rest = token.substring_char(i + 1, n);
    proof {
        assert(rest@ =~= token@.skip(i + 1));
    }
    let m = rest.unicode_len();
    let j = find_char_pos(rest, '.');
    proof {
        lemma_first_index_bounds(rest@, '.');
    }
    if j == m {
        return None;
    }
    let payload = rest.substring_char(0, j);
    let tail = rest.substring_char(j + 1, m);
    proof {
        assert(payload@ =~= rest@.take(j as int));
        assert(tail@ =~= rest@.skip(j + 1));
        lemma_first_dot_split(tail@);
    }
    if find_char_pos(tail, '.') != tail.unicode_len() {
        return None;
    }
    b64url_decode(payload)
}

/// The position of the first occurrence of `c`, or the length when there is
/// none.
fn find_char_pos(s: &str, c: char) -> (i: usize)
    ensures
        i == first_index_of(s@, c),
{
    let n = s.unicode_len();
    let mut i: usize = 0;
    while i < n && s.get_char(i) != c
        invariant
            0 <= i <= n,
            n == s@.len(),
            forall|j: int| 0 <= j < i ==> s@[j] != c,
        decreases n - i,
    {
        i = i + 1;
    }
    proof {
        lemma_first_index_at(s@, c, i as int);
    }
    i
}

/// The session claims issued at `now_ts` for a validated login: they expire
/// one session lifetime later.
pub fn make_session_claims(user_id: &str, name: &str, email: &str, now_ts: i64) -> (r:
    SessionClaims)
    requires
        now_ts + SESSION_LIFETIME_SECONDS <= i64::MAX,
    ensures
        r.sub@ == user_id@,
        r.name@ == name@,
        r.email@ == email@,
        r.iat == now_ts,
        r.exp == now_ts + SESSION_LIFETIME_SECONDS,
{
    SessionClaims {
        sub: user_id.to_owned(),
        name: name.to_owned(),
        email: email.to_owned(),
        exp: now_ts + SESSION_LIFETIME_SECONDS,
        iat: now_ts,
    }
}

/// The identity a decoded provider token yields: the object id, or the
/// subject when the object id is missing, with placeholder name and address
/// where the token carries none.
pub fn session_identity(claims: MicrosoftIdClaims) -> (r: (String, String, String))
    ensures
        claims.oid is Some ==> r.0 == claims.oid->Some_0,
        claims.oid is None && claims.sub is Some ==> r.0 == claims.sub->Some_0,
        claims.oid is None && claims.sub is None ==> r.0@ == "unknown"@,
        claims.name is Some ==> r.1 == claims.name->Some_0,
        claims.name is None ==> r.1@ == "Unknown User"@,
        claims.preferred_username is Some ==> r.2 == claims.preferred_username->Some_0,
        claims.preferred_username is None ==> r.2@ == "unknown@unknown.com"@,
{
    let user_id = match claims.oid {
        Some(oid) => oid,
        None => match claims.sub {
            Some(sub) => sub,
            None => "unknown".to_owned(),
        },
    };
    let name = match claims.name {
        Some(name) => name,
        None => "Unknown User".to_owned(),
    };
    let email = match claims.preferred_username {
        Some(email) => email,
        None => "unknown@unknown.com".to_owned(),
    };
    (user_id, name, email)
}

/// The cookie header value that stores a session token for one session
/// lifetime.
pub fn session_cookie_value(token: &str) -> (r: String)
    ensures
        r@ == "session="@ + token@ + "; Path=/; HttpOnly; SameSite=Lax; Max-Age=86400"@,
{
    String::from_str("session=").concat(token).concat(
        "; Path=/; HttpOnly; SameSite=Lax; Max-Age=86400",
    )
}

/// The cookie header value that clears the session cookie.
pub fn logout_cookie_value() -> (r: String)
    ensures
        r@ == "session=; Path=/; HttpOnly; SameSite=Lax; Max-Age=0"@,
{
    "session=; Path=/; HttpOnly; SameSite=Lax; Max-Age=0".to_owned()
}

/// Whether a character is padding inside a cookie header.
pub open spec fn is_cookie_ws(c: char) -> bool {
    c == ' ' || c == '\t'
}

/// The position of the first occurrence of `c` in `s`, or the length of `s`
/// when `c` does not occur.
pub open spec fn first_index_of(s: Seq<char>, c: char) -> int
    decreases s.len(),
{
    if s.len() == 0 {
        0
    } else if s[0] == c {
        0
    } else {
        1 + first_index_of(s.drop_first(), c)
    }
}

/// The first-occurrence position lies in the sequence, holds `c`, and nothing
/// before it does.
pub proof fn lemma_first_index_bounds(s: Seq<char>, c: char)
    ensures
        0 <= first_index_of(s, c) <= s.len(),
        first_index_of(s, c) < s.len() ==> s[first_index_of(s, c)] == c,
        forall|j: int| 0 <= j < first_index_of(s, c) ==> s[j] != c,
    decreases s.len(),
{
    if s.len() != 0 && s[0] != c {
        lemma_first_index_bounds(s.drop_first(), c);
        assert forall|j: int| 0 <= j < first_index_of(s, c) implies s[j] != c by {
            if j > 0 {
                assert(s[j] == s.drop_first()[j - 1]);
            }
        }
    }
}

/// `s` without its leading and trailing padding.
pub open spec fn trim_ws(s: Seq<char>) -> Seq<char>
    decreases s.len(),
{
    if s.len() == 0 {
        s
    } else if is_cookie_ws(s[0]) {
        trim_ws(s.drop_first())
    } else if is_cookie_ws(s.last()) {
        trim_ws(s.drop_last())
    } else {
        s
    }
}

/// The value of the named cookie in a cookie header: segments are separated
/// by semicolons and trimmed of padding, and the first segment that starts
/// with `name_eq` (the cookie name and the equals sign) yields the rest of
/// that segment.
pub open spec fn cookie_value_in(header: Seq<char>, name_eq: Seq<char>) -> Option<Seq<char>>
    decreases header.len(),
    via cookie_value_in_decreases
{
    let i = first_index_of(header, ';');
    let seg = trim_ws(header.take(i));
    if seg.len() >= name_eq.len() && seg.take(name_eq.len() as int) == name_eq {
        Some(seg.skip(name_eq.len() as int))
    } else if i == header.len() {
        None
    } else {
        cookie_value_in(header.skip(i + 1), name_eq)
    }
}

#[via_fn]
proof fn cookie_value_in_decreases(header: Seq<char>, name_eq: Seq<char>) {
    lemma_first_index_bounds(header, ';');
}

/// Trimming is cutting at the first and last non-padding positions.
proof fn lemma_trim_range(s: Seq<char>, a: int, b: int)
    requires
        0 <= a <= b <= s.len(),
        forall|j: int| 0 <= j < a ==> is_cookie_ws(#[trigger] s[j]),
        forall|j: int| b <= j < s.len() ==> is_cookie_ws(#[trigger] s[j]),
        a == b || (!is_cookie_ws(s[a]) && !is_cookie_ws(s[b - 1])),
    ensures
        trim_ws(s) == s.subrange(a, b),
    decreases s.len(),
{
    if s.len() == 0 {
        assert(trim_ws(s) =~= s.subrange(a, b));
    } else if a > 0 {
        lemma_trim_range(s.drop_first(), a - 1, b - 1);
        assert(s.drop_first().subrange(a - 1, b - 1) =~= s.subrange(a, b));
    } else if a == b {
        assert(is_cookie_ws(s[0]));
        lemma_trim_range(s.drop_first(), 0, 0);
        assert(s.drop_first().subrange(0, 0) =~= s.subrange(a, b));
    } else if b < s.len() {
        assert(is_cookie_ws(s.last()));
        lemma_trim_range(s.drop_last(), a, b);
        assert(s.drop_last().subrange(a, b) =~= s.subrange(a, b));
    } else {
        assert(trim_ws(s) == s);
        assert(s.subrange(a, b) =~= s);
    }
}

/// Nothing before position `i` is `c`, and `i` is the end or holds `c`: then
/// `i` is the first occurrence.
proof fn lemma_first_index_at(s: Seq<char>, c: char, i: int)
    requires
        0 <= i <= s.len(),
        forall|j: int| 0 <= j < i ==> s[j] != c,
        i == s.len() || s[i] == c,
    ensures
        first_index_of(s, c) == i,
    decreases i,
{
    if i > 0 {
        lemma_first_index_at(s.drop_first(), c, i - 1);
    }
}

/// `s` without its leading and trailing padding.
fn trim_str<'a>(s: &'a str) -> (r: &'a str)
    ensures
        r@ == trim_ws(s@),
{
    let n = s.unicode_len();
    let mut a: usize = 0;
    while a < n && (s.get_char(a) == ' ' || s.get_char(a) == '\t')
        invariant
            0 <= a <= n,
            n == s@.len(),
            forall|j: int| 0 <= j < a ==> is_cookie_ws(#[trigger] s@[j]),
        decreases n - a,
    {
        a = a + 1;
    }
    let mut b: usize = n;
    while b > a && (s.get_char(b - 1) == ' ' || s.get_char(b - 1) == '\t')
        invariant
            a <= b <= n,
            n == s@.len(),
            forall|j: int| b <= j < n ==> is_cookie_ws(#[trigger] s@[j]),
        decreases b,
    {
        b = b - 1;
    }
    proof {
        lemma_trim_range(s@, a as int, b as int);
    }
    s.substring_char(a, b)
}

/// Whether `s` starts with `p`.
fn has_prefix(s: &str, p: &str) -> (r: bool)
    ensures
        r == (s@.len() >= p@.len() && s@.take(p@.len() as int) == p@),
{
    let n = s.unicode_len();
    let m = p.unicode_len();
    if n < m {
        return false;
    }
    let mut j: usize = 0;
    while j < m
        invariant
            0 <= j <= m <= n,
            n == s@.len(),
            m == p@.len(),
            forall|k: int| 0 <= k < j ==> s@[k] == p@[k],
        decreases m - j,
    {
        if s.get_char(j) != p.get_char(j) {
            proof {
                if s@.take(m as int) == p@ {
                    assert(s@.take(m as int)[j as int] == p@[j as int]);
                }
            }
            return false;
        }
        j = j + 1;
    }
    proof {
        assert(s@.take(m as int) =~= p@);
    }
    true
}

/// The session token in a cookie header: the value of the first cookie named
/// "session", or nothing when no segment carries one.
pub fn extract_session_cookie(header: &str) -> (r: Option<String>)
    ensures
        r is Some <==> cookie_value_in(header@, "session="@) is Some,
        r matches Some(v) ==> Some(v@) == cookie_value_in(header@, "session="@),
    decreases header@.len(),
{
    let n = header.unicode_len();
    let i = find_char_pos(header, ';');
    proof {
        lemma_first_index_bounds(header@, ';');
    }
    let seg = header.substring_char(0, i);
    let t = trim_str(seg);
    let name = "session=";
    proof {
        assert(seg@ =~= header@.take(i as int));
    }
    if has_prefix(t, name) {
        let name_len = name.unicode_len();
        let v = t.substring_char(name_len, t.unicode_len());
        proof {
            assert(v@ =~= t@.skip(name@.len() as int));
        }
        Some(v.to_owned())
    } else if i == n {
        None
    } else {
        let rest = header.substring_char(i + 1, n);
        proof {
            assert(rest@ =~= header@.skip(i + 1));
        }
        extract_session_cookie(rest)
    }
}

} // verus!
