//! Who makes a request: tokens, where they are found and what they say.
use vstd::prelude::*;

use crate::{access, decimal, json, jsontext, members, search, text};
use crate::access::{AccessError, Claims};
use crate::decimal::to_decimal;
use crate::json::Json;
use crate::jsontext::{serde_number, serde_object, serde_text};
use crate::members::{only_member, read_members};
use crate::search::{find_char, split};
use crate::text::{chars_of, concat2, same, starts_with, string_of_range, trim};

verus! {

/// The claims of a token that is signed with a secret, by HMAC with SHA-256, as they
/// are written in it.
pub uninterp spec fn jwt_payload(token: Seq<char>, secret: Seq<char>) -> Option<Seq<char>>;

/// Whether a value is an object of texts and numbers from zero up.
pub open spec fn is_flat(value: Json) -> bool {
    &&& value is Object
    &&& forall|k: int|
        0 <= k < value->Object_0@.len() ==> (#[trigger] value->Object_0@[k]).1 is Text
            || value->Object_0@[k].1 is Unsigned
}

/// Whether a character is one that tokens are written in: the letters and digits
/// of the 64 that addresses may hold, and the dot.
pub open spec fn is_token_char(c: char) -> bool {
    'A' <= c <= 'Z' || 'a' <= c <= 'z' || '0' <= c <= '9' || c == '-' || c == '_' || c == '.'
}

pub open spec fn is_token(s: Seq<char>) -> bool {
    forall|i: int| 0 <= i < s.len() ==> is_token_char(#[trigger] s[i])
}

/// What the claims of a token that is signed with a secret tell.
pub open spec fn told_claims(token: Seq<char>, secret: Seq<char>) -> Option<
    Seq<(Seq<char>, Option<Json>)>,
> {
    match jwt_payload(token, secret) {
        Some(raw) => members::told_members(raw),
        None => None,
    }
}

/// Calls `jsonwebtoken::encode` with the algorithm HS256, which never fails
/// with a secret of bytes: the token that comes back is written in the
/// characters of a token, is signed with the secret and tells the claims, member
/// by member. Of claims that hold fractions the last is not said, for those may be
/// written in fewer digits than they have.
#[verifier::external_body]
pub(crate) fn jwt_encode(claims: &serde_json::Value, secret: &str) -> (r: Option<String>)
    ensures
        r is Some,
        is_token(r->0@),
        is_flat(jsontext::json_held(*claims)) ==> told_claims(r->0@, secret@) == Some(
            members::told_entries(jsontext::json_held(*claims)->Object_0@),
        ),
{
    let header = jsonwebtoken::Header::new(jsonwebtoken::Algorithm::HS256);
    let key = jsonwebtoken::EncodingKey::from_secret(secret.as_bytes());
    jsonwebtoken::encode(&header, claims, &key).ok()
}

/// Calls `jsonwebtoken::decode` with the algorithm HS256: the claims that come
/// back are those of the token as they are written, and it is signed with the
/// secret. There are none where it is not, where they are no JSON, or where the token
/// has expired, which depends on the time.
#[verifier::external_body]
pub(crate) fn jwt_decode(token: &str, secret: &str) -> (r: Option<String>)
    ensures
        r matches Some(raw) ==> jwt_payload(token@, secret@) == Some(raw@),
{
    let key = jsonwebtoken::DecodingKey::from_secret(secret.as_bytes());
    let rules = jsonwebtoken::Validation::new(jsonwebtoken::Algorithm::HS256);
    jsonwebtoken::decode::<Box<serde_json::value::RawValue>>(token, &key, &rules)
        .ok()
        .map(|data| data.claims.get().to_owned())
}

pub struct ClaimsView {
    pub sub: Seq<char>,
    pub uid: u64,
    pub username: Seq<char>,
    pub role: u8,
    pub exp: u64,
}

impl View for Claims {
    type V = ClaimsView;

    open spec fn view(&self) -> ClaimsView {
        ClaimsView {
            sub: self.sub@,
            uid: self.uid,
            username: self.username@,
            role: self.role,
            exp: self.exp,
        }
    }
}

/// Who the claims of a token tell of. A claim that is there twice is refused.
pub open spec fn claims_in(claims: Seq<(Seq<char>, Option<Json>)>) -> Option<ClaimsView> {
    let sub = json::as_text(members::only_value(claims, "sub"@));
    let uid = json::as_u64(members::only_value(claims, "uid"@));
    let username = json::as_text(members::only_value(claims, "username"@));
    let role = json::as_u64(members::only_value(claims, "role"@));
    let exp = json::as_u64(members::only_value(claims, "exp"@));
    if sub is Some && uid is Some && username is Some && role is Some && role->0 < 256
        && exp is Some {
        Some(
            ClaimsView {
                sub: sub->0,
                uid: uid->0,
                username: username->0,
                role: role->0 as u8,
                exp: exp->0,
            },
        )
    } else {
        None
    }
}

/// The text of a claim.
pub(crate) fn text_of(claims: &Vec<(String, Option<Json>)>, name: &str) -> (r: Option<String>)
    ensures
        ({
            let told = json::as_text(
                members::only_value(members::member_views(claims@), name@),
            );
            match r {
                Some(s) => told == Some(s@),
                None => told is None,
            }
        }),
{
    match only_member(claims, name) {
        Some(v) => match v.text() {
            Some(s) => Some(s.to_owned()),
            None => None,
        },
        None => None,
    }
}

/// The number of a claim.
pub(crate) fn number_of(claims: &Vec<(String, Option<Json>)>, name: &str) -> (r: Option<u64>)
    ensures
        r == json::as_u64(members::only_value(members::member_views(claims@), name@)),
{
    match only_member(claims, name) {
        Some(v) => v.unsigned(),
        None => None,
    }
}

/// Who the claims of a token tell of.
pub fn claims_from(claims: &Vec<(String, Option<Json>)>) -> (r: Option<Claims>)
    ensures
        match r {
            Some(c) => claims_in(members::member_views(claims@)) == Some(c@),
            None => claims_in(members::member_views(claims@)) is None,
        },
{
    match (
        text_of(claims, "sub"),
        number_of(claims, "uid"),
        text_of(claims, "username"),
        number_of(claims, "role"),
        number_of(claims, "exp"),
    ) {
        (Some(sub), Some(uid), Some(username), Some(role), Some(exp)) => {
            if role < 256 {
                Some(Claims { sub, uid, username, role: role as u8, exp })
            } else {
                None
            }
        },
        _ => None,
    }
}

/// Who a token that is signed with a secret tells of.
pub open spec fn claims_at(token: Seq<char>, secret: Seq<char>) -> Option<ClaimsView> {
    match told_claims(token, secret) {
        Some(claims) => claims_in(claims),
        None => None,
    }
}

/// Who a token tells of. There is nobody where the token is not signed with the
/// secret, does not tell, or has expired.
pub fn decode_token(secret: &str, token: &str) -> (r: Result<Claims, AccessError>)
    ensures
        match r {
            Ok(c) => claims_at(token@, secret@) == Some(c@),
            Err(e) => e == AccessError::Unauthorized,
        },
{
    let raw = match jwt_decode(token, secret) {
        Some(raw) => raw,
        None => {
            return Err(AccessError::Unauthorized);
        },
    };
    match read_members(raw.as_str()) {
        Some(claims) => match claims_from(&claims) {
            Some(c) => Ok(c),
            None => Err(AccessError::Unauthorized),
        },
        None => Err(AccessError::Unauthorized),
    }
}

/// A token and when it expires.
#[derive(Debug)]
pub struct LoginResponse {
    pub token: String,
    pub expire: String,
}

/// The seconds of a number of hours, as far as they can be counted.
pub open spec fn hours_in_seconds(hours: u64) -> u64 {
    if hours * 3600 > u64::MAX {
        u64::MAX
    } else {
        (hours * 3600) as u64
    }
}

fn seconds_of_hours(hours: u64) -> (r: u64)
    ensures
        r == hours_in_seconds(hours),
{
    if hours > u64::MAX / 3600 {
        u64::MAX
    } else {
        hours * 3600
    }
}

/// What a token tells that is issued at `now` to a user for so many hours.
pub open spec fn issued_claims(
    now: u64,
    timeout_hours: u64,
    uid: u64,
    username: Seq<char>,
    role: u8,
) -> ClaimsView {
    ClaimsView {
        sub: decimal::decimal(uid as nat),
        uid,
        username,
        role,
        exp: (now + hours_in_seconds(timeout_hours)) as u64,
    }
}

/// A token for a user, which expires so many hours from `now`.
pub fn issue_token(
    secret: &str,
    now: u64,
    timeout_hours: u64,
    uid: u64,
    username: &str,
    role: u8,
) -> (r: LoginResponse)
    requires
        now + hours_in_seconds(timeout_hours) <= u64::MAX,
    ensures
        ({
            let issued = issued_claims(now, timeout_hours, uid, username@, role);
            &&& claims_at(r.token@, secret@) == Some(issued)
            &&& is_token(r.token@)
            &&& r.expire@ == decimal::decimal(issued.exp as nat)
        }),
{
    let exp: u64 = now + seconds_of_hours(timeout_hours);
    let sub = to_decimal(uid);
    let mut given_claims: Vec<(String, serde_json::Value)> = Vec::new();
    given_claims.push(("sub".to_owned(), serde_text(sub.as_str())));
    given_claims.push(("uid".to_owned(), serde_number(uid)));
    given_claims.push(("username".to_owned(), serde_text(username)));
    given_claims.push(("role".to_owned(), serde_number(role as u64)));
    given_claims.push(("exp".to_owned(), serde_number(exp)));
    let ghost given = given_claims@;
    let value = serde_object(given_claims);
    proof {
        reveal_strlit("sub");
        reveal_strlit("uid");
        reveal_strlit("username");
        reveal_strlit("role");
        reveal_strlit("exp");
        assert("sub"@[0] != "uid"@[0]);
        assert("role"@[0] != "exp"@[0]);
        let held = jsontext::json_held(value);
        assert forall|i: int, j: int| 0 <= i < j < given.len() implies (#[trigger] given[i]).0@
            != (#[trigger] given[j]).0@ by {
            assert(given[i].0@.len() != given[j].0@.len() || given[i].0@[0] != given[j].0@[0]);
        }
        assert(json::member(held, given[0].0@) == Some(jsontext::json_held(given[0].1)));
        assert(json::member(held, given[1].0@) == Some(jsontext::json_held(given[1].1)));
        assert(json::member(held, given[2].0@) == Some(jsontext::json_held(given[2].1)));
        assert(json::member(held, given[3].0@) == Some(jsontext::json_held(given[3].1)));
        assert(json::member(held, given[4].0@) == Some(jsontext::json_held(given[4].1)));
        let entries = held->Object_0@;
        members::entries_are_told(entries, given[0].0@);
        members::entries_are_told(entries, given[1].0@);
        members::entries_are_told(entries, given[2].0@);
        members::entries_are_told(entries, given[3].0@);
        members::entries_are_told(entries, given[4].0@);
        assert(is_flat(held)) by {
            assert forall|k: int| 0 <= k < held->Object_0@.len() implies (
            #[trigger] held->Object_0@[k]).1 is Text || held->Object_0@[k].1 is Unsigned by {
                let i = choose|i: int|
                    0 <= i < given.len() && jsontext::json_held((#[trigger] given[i]).1)
                        == held->Object_0@[k].1;
                assert(jsontext::json_held(given[i].1) is Text
                    || jsontext::json_held(given[i].1) is Unsigned);
            }
        }
    }
    let token = match jwt_encode(&value, secret) {
        Some(t) => t,
        None => String::new(),
    };
    LoginResponse { token, expire: to_decimal(exp) }
}

/// The token in a header that authorizes.
pub open spec fn bearer(raw: Seq<char>) -> Seq<char> {
    if "Bearer "@.is_prefix_of(raw) {
        raw.skip("Bearer "@.len() as int)
    } else {
        raw
    }
}

/// The token in a header that authorizes.
pub fn header_token(raw: &str) -> (r: String)
    ensures
        r@ == bearer(raw@),
{
    if starts_with(raw, "Bearer ") {
        proof {
            reveal_strlit("Bearer ");
        }
        let chars = chars_of(raw);
        let r = string_of_range(&chars, 7, chars.len());
        proof {
            assert(r@ =~= raw@.skip(7));
        }
        r
    } else {
        raw.to_owned()
    }
}

/// What the first cookie from the piece at `k` on holds that is named `target`.
pub open spec fn cookie_among(pieces: Seq<Seq<char>>, target: Seq<char>, k: int) -> Option<Seq<char>>
    decreases pieces.len() - k,
{
    if k >= pieces.len() {
        None
    } else {
        let cookie = text::trimmed(pieces[k]);
        let at = search::index_of_char(cookie, '=', 0);
        if at < cookie.len() && cookie.take(at) == target {
            Some(cookie.skip(at + 1))
        } else {
            cookie_among(pieces, target, k + 1)
        }
    }
}

/// What the cookie of a name holds.
pub open spec fn cookie_held(cookies: Option<&str>, target: Seq<char>) -> Option<Seq<char>> {
    match cookies {
        Some(raw) => cookie_among(search::split_on(raw@, ';'), target, 0),
        None => None,
    }
}

/// What the cookie of a name holds.
pub fn cookie_value(cookies: Option<&str>, target: &str) -> (r: Option<String>)
    ensures
        match r {
            Some(s) => cookie_held(cookies, target@) == Some(s@),
            None => cookie_held(cookies, target@) is None,
        },
{
    let raw: &str = match cookies {
        Some(raw) => raw,
        None => {
            return None;
        },
    };
    let pieces = split(raw, ';');
    let ghost parts = search::split_on(raw@, ';');
    let mut k: usize = 0;
    while k < pieces.len()
        invariant
            k <= pieces@.len(),
            parts == search::split_on(raw@, ';'),
            parts == search::texts(pieces@),
            cookies matches Some(x) && x@ == raw@,
            cookie_among(parts, target@, k as int) == cookie_among(parts, target@, 0),
        decreases pieces@.len() - k,
    {
        let cookie = trim(pieces[k].as_str());
        proof {
            assert(parts[k as int] == pieces@[k as int]@);
        }
        let chars = chars_of(cookie.as_str());
        let at = find_char(&chars, '=', 0);
        if at < chars.len() {
            let name = string_of_range(&chars, 0, at);
            proof {
                assert(name@ =~= cookie@.take(at as int));
            }
            if same(name.as_str(), target) {
                let value = string_of_range(&chars, at + 1, chars.len());
                proof {
                    assert(value@ =~= cookie@.skip(at + 1));
                }
                return Some(value);
            }
        }
        k += 1;
    }
    None
}

/// The token of a request: from the header that authorizes, else from the
/// query, else from the cookie.
pub open spec fn token_of(
    authorization: Option<&str>,
    query_token: Option<&str>,
    cookies: Option<&str>,
) -> Option<Seq<char>> {
    match authorization {
        Some(raw) => Some(bearer(raw@)),
        None => match query_token {
            Some(t) => Some(t@),
            None => cookie_held(cookies, "nz-jwt"@),
        },
    }
}

/// The token of a request.
pub fn request_token(
    authorization: Option<&str>,
    query_token: Option<&str>,
    cookies: Option<&str>,
) -> (r: Option<String>)
    ensures
        match r {
            Some(s) => token_of(authorization, query_token, cookies) == Some(s@),
            None => token_of(authorization, query_token, cookies) is None,
        },
{
    match authorization {
        Some(raw) => Some(header_token(raw)),
        None => match query_token {
            Some(t) => Some(t.to_owned()),
            None => cookie_value(cookies, "nz-jwt"),
        },
    }
}

/// Whom a request is from, given what its token tells.
pub open spec fn admitted(
    force_auth: bool,
    has_token: bool,
    decoded: Result<Claims, AccessError>,
) -> Result<Option<Claims>, AccessError> {
    if has_token {
        match decoded {
            Ok(c) => Ok(Some(c)),
            Err(e) => Err(e),
        }
    } else if force_auth {
        Err(AccessError::Unauthorized)
    } else {
        Ok(None)
    }
}

/// Whom a request is from, given what its token tells: one without a token is
/// from a guest, where guests are let in.
pub fn admit_request(
    force_auth: bool,
    has_token: bool,
    decoded: Result<Claims, AccessError>,
) -> (r: Result<Option<Claims>, AccessError>)
    ensures
        r == admitted(force_auth, has_token, decoded),
{
    if has_token {
        match decoded {
            Ok(c) => Ok(Some(c)),
            Err(e) => Err(e),
        }
    } else if force_auth {
        Err(AccessError::Unauthorized)
    } else {
        Ok(None)
    }
}

/// Whom a request is from. Guests are let in unless `force_auth` is set.
pub fn authenticate_request(
    secret: &str,
    force_auth: bool,
    authorization: Option<&str>,
    query_token: Option<&str>,
    cookies: Option<&str>,
) -> (r: Result<Option<Claims>, AccessError>)
    ensures
        match token_of(authorization, query_token, cookies) {
            Some(token) => match r {
                Ok(Some(c)) => claims_at(token, secret@) == Some(c@),
                Ok(None) => false,
                Err(e) => e == AccessError::Unauthorized,
            },
            None => r == if force_auth {
                Err::<Option<Claims>, AccessError>(AccessError::Unauthorized)
            } else {
                Ok(None)
            },
        },
{
    match request_token(authorization, query_token, cookies) {
        Some(token) => {
            let decoded = decode_token(secret, token.as_str());
            admit_request(force_auth, true, decoded)
        },
        None => admit_request(force_auth, false, Err(AccessError::Unauthorized)),
    }
}

/// The user that a request is from; guests are refused.
pub fn require_auth(
    secret: &str,
    authorization: Option<&str>,
    query_token: Option<&str>,
    cookies: Option<&str>,
) -> (r: Result<Claims, AccessError>)
    ensures
        match r {
            Ok(c) => token_of(authorization, query_token, cookies) is Some && claims_at(
                token_of(authorization, query_token, cookies)->0,
                secret@,
            ) == Some(c@),
            Err(e) => e == AccessError::Unauthorized,
        },
{
    match authenticate_request(secret, true, authorization, query_token, cookies) {
        Ok(Some(c)) => Ok(c),
        _ => Err(AccessError::Unauthorized),
    }
}

/// What an administrator is let do.
pub open spec fn admin_only(claims: Claims) -> Result<Claims, AccessError> {
    if access::is_administrator(claims) {
        Ok(claims)
    } else {
        Err(AccessError::PermissionDenied)
    }
}

/// Refuses everybody but administrators.
pub fn require_admin(claims: Claims) -> (r: Result<Claims, AccessError>)
    ensures
        r == admin_only(claims),
{
    if claims.role == 0 {
        Ok(claims)
    } else {
        Err(AccessError::PermissionDenied)
    }
}

/// The cookie that a browser is to keep a token in.
pub open spec fn token_cookie(token: Seq<char>, timeout_hours: u64) -> Seq<char> {
    "nz-jwt="@ + token + "; Path=/; Max-Age="@ + decimal::decimal(
        hours_in_seconds(timeout_hours) as nat,
    ) + "; SameSite=Lax; HttpOnly"@
}

/// The cookie that a browser is to keep a token in.
pub fn jwt_cookie(token: &str, timeout_hours: u64) -> (r: String)
    ensures
        r@ == token_cookie(token@, timeout_hours),
{
    let age = to_decimal(seconds_of_hours(timeout_hours));
    let mut cookie = concat2("nz-jwt=", token);
    cookie.append("; Path=/; Max-Age=");
    cookie.append(age.as_str());
    cookie.append("; SameSite=Lax; HttpOnly");
    cookie
}

/// A browser that sends back one cookie, sends back what it was given.
pub proof fn cookie_reads_back(raw: &str, name: Seq<char>, value: Seq<char>)
    requires
        raw@ == name + seq!['='] + value,
        text::trimmed(raw@) == raw@,
        forall|i: int| 0 <= i < name.len() ==> name[i] != '=',
        forall|i: int| 0 <= i < raw@.len() ==> raw@[i] != ';',
    ensures
        cookie_held(Some(raw), name) == Some(value),
{
    let s = raw@;
    search::lemma_index_of_char(s, ';', 0);
    assert(search::split_on(s, ';') =~= seq![s]);
    search::lemma_index_of_char(s, '=', 0);
    let at = search::index_of_char(s, '=', 0);
    assert(s[name.len() as int] == '=');
    if at < name.len() {
        assert(s[at] == name[at]);
    }
    assert(at == name.len());
    assert(s.take(at) =~= name);
    assert(s.skip(at + 1) =~= value);
}

/// A token that was issued tells of its user and of nobody else.
pub proof fn tokens_tell_of_one_user(
    token: Seq<char>,
    secret: Seq<char>,
    issued: ClaimsView,
    told: ClaimsView,
)
    requires
        claims_at(token, secret) == Some(issued),
        claims_at(token, secret) == Some(told),
    ensures
        told == issued,
{
}

proof fn lemma_cookie_is_trimmed(s: Seq<char>)
    requires
        s.len() > 0,
        !text::is_white(s[0]),
        !text::is_white(s.last()),
    ensures
        text::trimmed(s) == s,
{
    let white = |c: char| text::is_white(c);
    assert(text::strip_front(s, white) == s);
    assert(text::strip_back(s, white) == s);
}

proof fn lemma_cookie_with_token(raw: &str, name: Seq<char>, token: Seq<char>)
    requires
        raw@ == name + seq!['='] + token,
        is_token(token),
        name.len() > 0,
        forall|i: int| 0 <= i < name.len() ==> is_token_char(#[trigger] name[i]),
    ensures
        cookie_held(Some(raw), name) == Some(token),
{
    let s = raw@;
    assert forall|i: int| 0 <= i < s.len() implies is_token_char(#[trigger] s[i]) || s[i]
        == '=' by {
        if i < name.len() {
            assert(s[i] == name[i]);
        } else if i > name.len() {
            assert(s[i] == token[i - name.len() - 1]);
        }
    }
    assert(is_token_char(s[0]) || s[0] == '=');
    assert(is_token_char(s[s.len() - 1]) || s[s.len() - 1] == '=');
    lemma_cookie_is_trimmed(s);
    assert forall|i: int| 0 <= i < s.len() implies s[i] != ';' by {
        assert(is_token_char(s[i]) || s[i] == '=');
    }
    assert forall|i: int| 0 <= i < name.len() implies name[i] != '=' by {
        assert(is_token_char(name[i]));
    }
    cookie_reads_back(raw, name, token);
}

/// A browser that sends back the cookie with its token is known by that token.
pub proof fn login_cookie_reads_back(raw: &str, token: Seq<char>)
    requires
        raw@ == "nz-jwt="@ + token,
        is_token(token),
    ensures
        token_of(None, None, Some(raw)) == Some(token),
{
    reveal_strlit("nz-jwt=");
    reveal_strlit("nz-jwt");
    assert(raw@ =~= "nz-jwt"@ + seq!['='] + token);
    lemma_cookie_with_token(raw, "nz-jwt"@, token);
}

/// A browser that comes back from a provider brings back what it was sent away
/// with.
pub proof fn state_cookie_reads_back(raw: &str, token: Seq<char>)
    requires
        raw@ == "nz-o2s="@ + token,
        is_token(token),
    ensures
        cookie_held(Some(raw), "nz-o2s"@) == Some(token),
{
    reveal_strlit("nz-o2s=");
    reveal_strlit("nz-o2s");
    assert(raw@ =~= "nz-o2s"@ + seq!['='] + token);
    lemma_cookie_with_token(raw, "nz-o2s"@, token);
}

/// A token tells the number, the name and the role of its user, and expires as many
/// hours after it was issued as it was issued for.
pub proof fn tokens_expire_after_their_hours(
    now: u64,
    hours: u64,
    uid: u64,
    username: Seq<char>,
    role: u8,
)
    requires
        now + hours * 60 * 60 <= u64::MAX,
    ensures
        ({
            let issued = issued_claims(now, hours, uid, username, role);
            &&& issued.exp == now + hours * 60 * 60
            &&& issued.uid == uid
            &&& issued.username == username
            &&& issued.role == role
            &&& decimal::parsed_u64(issued.sub) == Some(uid)
        }),
{
    decimal::decimal_reads_back(uid);
}

/// The header that authorizes counts before the query, and the query before the
/// cookie. The word before the token in the header is left out.
pub proof fn tokens_are_looked_for_in_order(
    header: &str,
    token: Seq<char>,
    query: Option<&str>,
    asked: &str,
    cookies: Option<&str>,
)
    ensures
        header@ == "Bearer "@ + token ==> token_of(Some(header), query, cookies) == Some(token),
        !"Bearer "@.is_prefix_of(header@) ==> token_of(Some(header), query, cookies) == Some(
            header@,
        ),
        token_of(None, Some(asked), cookies) == Some(asked@),
        token_of(None, None, cookies) == cookie_held(cookies, "nz-jwt"@),
        token_of(None, None, None) is None,
{
    reveal_strlit("Bearer ");
    if header@ == "Bearer "@ + token {
        assert(header@.take(7) =~= "Bearer "@);
        assert(header@.skip(7) =~= token);
    }
}

/// A request with a token is from the user that the token tells of, or refused with
/// it; one without is from a guest, unless everybody has to be known.
pub proof fn guests_are_let_in_unless_forbidden(
    force_auth: bool,
    claims: Claims,
    e: AccessError,
    decoded: Result<Claims, AccessError>,
)
    ensures
        admitted(force_auth, true, Ok(claims)) == Ok::<Option<Claims>, AccessError>(Some(claims)),
        admitted(force_auth, true, Err(e)) == Err::<Option<Claims>, AccessError>(e),
        admitted(true, false, decoded) == Err::<Option<Claims>, AccessError>(
            AccessError::Unauthorized,
        ),
        admitted(false, false, decoded) == Ok::<Option<Claims>, AccessError>(None),
{
}

/// What is for administrators is let do by role 0 alone.
pub proof fn only_administrators_pass(claims: Claims)
    ensures
        claims.role == 0 ==> admin_only(claims) == Ok::<Claims, AccessError>(claims),
        claims.role != 0 ==> admin_only(claims) == Err::<Claims, AccessError>(
            AccessError::PermissionDenied,
        ),
{
}

/// The claims of a token tell of a user exactly where each of the five is there
/// once, is of its kind, and the role is one that there can be.
pub proof fn claims_are_told_once_each(
    claims: Seq<(Seq<char>, Option<Json>)>,
    sub: String,
    uid: u64,
    username: String,
    role: u64,
    exp: u64,
)
    ensures
        members::only_value(claims, "sub"@) == Some(Json::Text(sub)) && members::only_value(
            claims,
            "uid"@,
        ) == Some(Json::Unsigned(uid)) && members::only_value(claims, "username"@) == Some(
            Json::Text(username),
        ) && members::only_value(claims, "role"@) == Some(Json::Unsigned(role))
            && members::only_value(claims, "exp"@) == Some(Json::Unsigned(exp)) ==> match claims_in(
            claims,
        ) {
            Some(c) => c.sub == sub@ && c.uid == uid && c.username == username@ && c.role == role
                && c.exp == exp,
            None => role > 255,
        },
        members::only_value(claims, "sub"@) is None || members::only_value(claims, "uid"@) is None
            || members::only_value(claims, "username"@) is None || members::only_value(
            claims,
            "role"@,
        ) is None || members::only_value(claims, "exp"@) is None ==> claims_in(claims) is None,
{
}

/// Of several cookies the first of the name counts, whatever stands before it and
/// behind it.
pub proof fn first_cookie_of_the_name_counts(
    pieces: Seq<Seq<char>>,
    name: Seq<char>,
    value: Seq<char>,
    k: int,
    at: int,
)
    requires
        0 <= k <= at < pieces.len(),
        text::trimmed(pieces[at]) == name + seq!['='] + value,
        forall|i: int| 0 <= i < name.len() ==> name[i] != '=',
        forall|i: int|
            k <= i < at ==> !(name + seq!['=']).is_prefix_of(text::trimmed(#[trigger] pieces[i])),
    ensures
        cookie_among(pieces, name, k) == Some(value),
    decreases at - k,
{
    let cookie = text::trimmed(pieces[k]);
    search::lemma_index_of_char(cookie, '=', 0);
    let i = search::index_of_char(cookie, '=', 0);
    if k < at {
        if i < cookie.len() && cookie.take(i) == name {
            assert(cookie.take(i + 1) =~= name + seq!['=']);
            assert((name + seq!['=']).is_prefix_of(text::trimmed(pieces[k])));
        }
        first_cookie_of_the_name_counts(pieces, name, value, k + 1, at);
    } else {
        assert(cookie[name.len() as int] == '=');
        if i < name.len() {
            assert(cookie[i] == name[i]);
        }
        assert(cookie.take(i) =~= name);
        assert(cookie.skip(i + 1) =~= value);
    }
}

/// The cookie that a browser is given is the one by which it is known: its first
/// part, up to the `;`, holds the token.
pub proof fn given_cookie_holds_the_token(token: Seq<char>, hours: u64, kept: &str)
    requires
        is_token(token),
        search::split_on(token_cookie(token, hours), ';')[0] == kept@,
    ensures
        token_of(None, None, Some(kept)) == Some(token),
{
    let s = token_cookie(token, hours);
    let front = "nz-jwt="@ + token;
    reveal_strlit("nz-jwt=");
    reveal_strlit("; Path=/; Max-Age=");
    search::lemma_index_of_char(s, ';', 0);
    assert(s[front.len() as int] == ';');
    let i = search::index_of_char(s, ';', 0);
    assert forall|k: int| 0 <= k < front.len() implies s[k] != ';' by {
        if k >= 7 {
            assert(s[k] == token[k - 7]);
            assert(is_token_char(token[k - 7]));
        } else {
            assert(s[k] == "nz-jwt="@[k]);
        }
    }
    assert(i == front.len());
    assert(s.take(i) =~= front);
    login_cookie_reads_back(kept, token);
}

/// Cookies come one behind the other with a `;` between them: what the cookie of a name
/// holds is what the first of them with the name holds.
pub proof fn cookies_are_parted_by_semicolons(raw: &str, pieces: Seq<Seq<char>>, target: Seq<char>)
    requires
        pieces.len() > 0,
        raw@ == search::joined(pieces, seq![';']),
        forall|i: int, k: int|
            0 <= i < pieces.len() && 0 <= k < pieces[i].len() ==> #[trigger] pieces[i][k] != ';',
    ensures
        cookie_held(Some(raw), target) == cookie_among(pieces, target, 0),
        cookie_held(None, target) is None,
{
    search::splitting_undoes_joining(pieces, ';');
}

} // verus!
