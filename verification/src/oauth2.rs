//! Signing in through another provider: where a browser is sent, what it
//! brings back, and which user that is.
use vstd::prelude::*;

use crate::{encode, json, jsonpath, jsontext, members, search, settings, text, tokens};
use crate::encode::percent_encode_form;
use crate::json::Json;
use crate::jsonpath::{PathText, PathTextView, json_path_string};
use crate::jsontext::{parse_json, serde_number, serde_object, serde_text};
use crate::members::read_members;
use crate::search::{contains, join};
use crate::settings::{DashboardSettings, OAuth2Config};
use crate::text::{concat2, same, starts_with, to_ascii_lowercase, trim};
use crate::tokens::{cookie_value, jwt_decode, jwt_encode, number_of, text_of};

verus! {

/// What is asked of a provider where nothing is said: that a user signs in.
pub fn default_oauth2_login_type() -> (r: u8)
    ensures
        r == 1,
{
    1
}

/// A pair of a form as it is written.
pub open spec fn form_pair(key: Seq<char>, value: Seq<char>) -> Seq<char> {
    encode::percent_text(vstd::utf8::encode_utf8(key), true) + "="@ + encode::percent_text(
        vstd::utf8::encode_utf8(value),
        true,
    )
}

/// The pairs of a form that hold something, as they are written.
pub open spec fn written_pairs(items: Seq<(Seq<char>, Seq<char>)>) -> Seq<Seq<char>>
    decreases items.len(),
{
    if items.len() == 0 {
        seq![]
    } else {
        let before = written_pairs(items.drop_last());
        if items.last().1.len() == 0 {
            before
        } else {
            before.push(form_pair(items.last().0, items.last().1))
        }
    }
}

/// The texts of pairs.
pub open spec fn str_pairs(items: Seq<(&str, &str)>) -> Seq<(Seq<char>, Seq<char>)> {
    items.map_values(|e: (&str, &str)| (e.0@, e.1@))
}

/// A form as it is written: the pairs that hold something.
pub fn form_pairs(items: &[(&str, &str)]) -> (r: String)
    ensures
        r@ == search::joined(written_pairs(str_pairs(items@)), "&"@),
{
    let mut pairs: Vec<String> = Vec::new();
    let mut i: usize = 0;
    proof {
        assert(str_pairs(items@).take(0) =~= seq![]);
        assert(search::texts(pairs@) =~= seq![]);
    }
    while i < items.len()
        invariant
            i <= items@.len(),
            search::texts(pairs@) == written_pairs(str_pairs(items@).take(i as int)),
        decreases items@.len() - i,
    {
        proof {
            assert(str_pairs(items@).take(i + 1).drop_last() =~= str_pairs(items@).take(i as int));
        }
        let value: &str = items[i].1;
        if !value.is_empty() {
            let mut pair = percent_encode_form(items[i].0);
            pair.append("=");
            let encoded = percent_encode_form(value);
            pair.append(encoded.as_str());
            proof {
                search::lemma_texts_push(pairs@, pair);
            }
            pairs.push(pair);
        }
        i += 1;
    }
    proof {
        assert(str_pairs(items@).take(items@.len() as int) =~= str_pairs(items@));
    }
    join(&pairs, "&")
}

/// The address that a provider sends a browser back to.
pub open spec fn callback_url(
    forwarded_proto: Option<&str>,
    referer: Option<&str>,
    host: Option<&str>,
) -> Seq<char> {
    let secure = (forwarded_proto matches Some(p) && p@ == "https"@) || (referer matches Some(r)
        && "https://"@.is_prefix_of(r@));
    let scheme = if secure {
        "https"@
    } else {
        "http"@
    };
    let host = match host {
        Some(h) => h@,
        None => "localhost"@,
    };
    scheme + "://"@ + host + "/api/v1/oauth2/callback"@
}

/// The address that a provider sends a browser back to, by the headers of the
/// request.
pub fn oauth2_redirect_url(
    forwarded_proto: Option<&str>,
    referer: Option<&str>,
    host: Option<&str>,
) -> (r: String)
    ensures
        r@ == callback_url(forwarded_proto, referer, host),
{
    let forwarded: bool = match forwarded_proto {
        Some(p) => same(p, "https"),
        None => false,
    };
    let referred: bool = match referer {
        Some(r) => starts_with(r, "https://"),
        None => false,
    };
    let scheme: &str = if forwarded || referred {
        "https"
    } else {
        "http"
    };
    let name: &str = match host {
        Some(h) => h,
        None => "localhost",
    };
    let mut url = concat2(scheme, "://");
    url.append(name);
    url.append("/api/v1/oauth2/callback");
    url
}

/// The address that a browser is sent to.
pub open spec fn auth_url(config: OAuth2Config, redirect_url: Seq<char>, state: Seq<char>) -> Seq<
    char,
> {
    let separator = if search::occurs(config.endpoint.auth_url@, "?"@) {
        "&"@
    } else {
        "?"@
    };
    let pairs = seq![
        ("response_type"@, "code"@),
        ("client_id"@, config.client_id@),
        ("redirect_uri"@, redirect_url),
        ("scope"@, search::joined(search::texts(config.scopes@), " "@)),
        ("state"@, state),
    ];
    config.endpoint.auth_url@ + separator + search::joined(written_pairs(pairs), "&"@)
}

/// The address of the provider that a browser is sent to.
pub fn oauth2_auth_url(config: &OAuth2Config, redirect_url: &str, state: &str) -> (r: String)
    ensures
        r@ == auth_url(*config, redirect_url@, state@),
{
    let mut url = config.endpoint.auth_url.as_str().to_owned();
    if contains(config.endpoint.auth_url.as_str(), "?") {
        url.append("&");
    } else {
        url.append("?");
    }
    let scope = join(&config.scopes, " ");
    let items: [(&str, &str); 5] = [
        ("response_type", "code"),
        ("client_id", config.client_id.as_str()),
        ("redirect_uri", redirect_url),
        ("scope", scope.as_str()),
        ("state", state),
    ];
    let form = form_pairs(&items);
    proof {
        assert(str_pairs(items@) =~= seq![
            ("response_type"@, "code"@),
            ("client_id"@, config.client_id@),
            ("redirect_uri"@, redirect_url@),
            ("scope"@, search::joined(search::texts(config.scopes@), " "@)),
            ("state"@, state@),
        ]);
    }
    url.append(form.as_str());
    url
}

/// What a browser keeps while it is away at a provider.
#[derive(Debug)]
pub struct OAuth2StateClaims {
    pub action: u8,
    pub provider: String,
    pub state: String,
    pub redirect_url: String,
    pub exp: u64,
}

pub struct StateView {
    pub action: u8,
    pub provider: Seq<char>,
    pub state: Seq<char>,
    pub redirect_url: Seq<char>,
    pub exp: u64,
}

impl View for OAuth2StateClaims {
    type V = StateView;

    open spec fn view(&self) -> StateView {
        StateView {
            action: self.action,
            provider: self.provider@,
            state: self.state@,
            redirect_url: self.redirect_url@,
            exp: self.exp,
        }
    }
}

/// What the claims of a token tell of a browser that was away.
pub open spec fn state_in(claims: Seq<(Seq<char>, Option<Json>)>) -> Option<StateView> {
    let action = json::as_u64(members::only_value(claims, "action"@));
    let provider = json::as_text(members::only_value(claims, "provider"@));
    let state = json::as_text(members::only_value(claims, "state"@));
    let redirect_url = json::as_text(members::only_value(claims, "redirect_url"@));
    let exp = json::as_u64(members::only_value(claims, "exp"@));
    if action is Some
        && action->0 < 256 && provider is Some && state is Some && redirect_url is Some
        && exp is Some {
        Some(
            StateView {
                action: action->0 as u8,
                provider: provider->0,
                state: state->0,
                redirect_url: redirect_url->0,
                exp: exp->0,
            },
        )
    } else {
        None
    }
}

/// What the claims of a token tell of a browser that was away.
pub fn state_from(claims: &Vec<(String, Option<Json>)>) -> (r: Option<OAuth2StateClaims>)
    ensures
        match r {
            Some(c) => state_in(members::member_views(claims@)) == Some(c@),
            None => state_in(members::member_views(claims@)) is None,
        },
{
    match (
        number_of(claims, "action"),
        text_of(claims, "provider"),
        text_of(claims, "state"),
        text_of(claims, "redirect_url"),
        number_of(claims, "exp"),
    ) {
        (Some(action), Some(provider), Some(state), Some(redirect_url), Some(exp)) => {
            if action < 256 {
                Some(
                    OAuth2StateClaims { action: action as u8, provider, state, redirect_url, exp },
                )
            } else {
                None
            }
        },
        _ => None,
    }
}

/// What a token that is signed with a secret tells of a browser that was away.
pub open spec fn state_at(token: Seq<char>, secret: Seq<char>) -> Option<StateView> {
    match tokens::told_claims(token, secret) {
        Some(claims) => state_in(claims),
        None => None,
    }
}

/// The cookie that keeps a token while a browser is away.
pub open spec fn state_cookie(token: Seq<char>) -> Seq<char> {
    "nz-o2s="@ + token + "; Path=/; Max-Age=300; SameSite=Lax; HttpOnly"@
}

/// The cookie that a browser keeps while it is away. Its token tells `claims`.
pub fn encode_oauth2_state_cookie(secret: &str, claims: &OAuth2StateClaims) -> (r: String)
    ensures
        exists|token: Seq<char>|
            r@ == #[trigger] state_cookie(token)
                && tokens::is_token(token) && state_at(token, secret@)
                == Some(claims@),
{
    let mut given_claims: Vec<(String, serde_json::Value)> = Vec::new();
    given_claims.push(("action".to_owned(), serde_number(claims.action as u64)));
    given_claims.push(("provider".to_owned(), serde_text(claims.provider.as_str())));
    given_claims.push(("state".to_owned(), serde_text(claims.state.as_str())));
    given_claims.push(("redirect_url".to_owned(), serde_text(claims.redirect_url.as_str())));
    given_claims.push(("exp".to_owned(), serde_number(claims.exp)));
    let ghost given = given_claims@;
    let value = serde_object(given_claims);
    proof {
        reveal_strlit("action");
        reveal_strlit("provider");
        reveal_strlit("state");
        reveal_strlit("redirect_url");
        reveal_strlit("exp");
        let held = jsontext::json_held(value);
        assert forall|i: int, j: int| 0 <= i < j < given.len() implies (#[trigger] given[i]).0@
            != (#[trigger] given[j]).0@ by {
            assert(given[i].0@.len() != given[j].0@.len());
        }
        assert(json::member(held, given[0].0@) == Some(jsontext::json_held(given[0].1)));
        assert(json::member(held, given[1].0@) == Some(jsontext::json_held(given[1].1)));
        assert(json::member(held, given[2].0@) == Some(jsontext::json_held(given[2].1)));
        assert(json::member(held, given[3].0@) == Some(jsontext::json_held(given[3].1)));
        assert(json::member(held, given[4].0@) == Some(jsontext::json_held(given[4].1)));
        let entries = held->Object_0@;
        members::entries_are_told(entries, given[0].0@);
        members::entries_are_told(entries, given[1].0@);
        members::entries_are_told(entries, given[2].0@);
        members::entries_are_told(entries, given[3].0@);
        members::entries_are_told(entries, given[4].0@);
        assert(tokens::is_flat(held)) by {
            assert forall|k: int| 0 <= k < held->Object_0@.len() implies (
            #[trigger] held->Object_0@[k]).1 is Text || held->Object_0@[k].1 is Unsigned by {
                let i = choose|i: int|
                    0 <= i < given.len() && jsontext::json_held((#[trigger] given[i]).1)
                        == held->Object_0@[k].1;
                assert(jsontext::json_held(given[i].1) is Text
                    || jsontext::json_held(given[i].1) is Unsigned);
            }
        }
    }
    let token = match jwt_encode(&value, secret) {
        Some(t) => t,
        None => String::new(),
    };
    let mut cookie = concat2("nz-o2s=", token.as_str());
    cookie.append("; Path=/; Max-Age=300; SameSite=Lax; HttpOnly");
    proof {
        assert(cookie@ == state_cookie(token@));
    }
    cookie
}

/// What the cookies of a request tell of a browser that was away. They tell
/// nothing where there is no such cookie, or its token is not signed with the
/// secret or has expired.
pub fn oauth2_state_from_headers(secret: &str, cookies: Option<&str>) -> (r: Option<
    OAuth2StateClaims,
>)
    ensures
        r matches Some(c) ==> tokens::cookie_held(cookies, "nz-o2s"@) is Some && state_at(
            tokens::cookie_held(cookies, "nz-o2s"@)->0,
            secret@,
        ) == Some(c@),
{
    match cookie_value(cookies, "nz-o2s") {
        Some(token) => match jwt_decode(token.as_str(), secret) {
            Some(raw) => match read_members(raw.as_str()) {
                Some(claims) => state_from(&claims),
                None => None,
            },
            None => None,
        },
        None => None,
    }
}

/// Why a browser that comes back is refused.
#[derive(Debug, Clone, Copy, PartialEq, Eq, Structural)]
pub enum OAuth2Error {
    InvalidState,
    CodeRequired,
    ProviderRequired,
    ProviderNotFound,
    BadTokenReply,
    TokenMissing,
    BadUserInfo,
    UserIdMissing,
    NotBound,
    Unauthorized,
}

pub open spec fn oauth2_error_text(e: OAuth2Error) -> Seq<char> {
    match e {
        OAuth2Error::InvalidState => "invalid state key"@,
        OAuth2Error::CodeRequired => "code is required"@,
        OAuth2Error::ProviderRequired => "provider is required"@,
        OAuth2Error::ProviderNotFound => "provider not found"@,
        OAuth2Error::BadTokenReply => "failed to decode oauth2 token response"@,
        OAuth2Error::TokenMissing => "oauth2 access_token missing"@,
        OAuth2Error::BadUserInfo => "failed to decode oauth2 user info"@,
        OAuth2Error::UserIdMissing => "oauth2 user id missing"@,
        OAuth2Error::NotBound => "oauth2 user not binded yet"@,
        OAuth2Error::Unauthorized => "unauthorized"@,
    }
}

impl OAuth2Error {
    /// What is told of it.
    pub fn message(self) -> (r: &'static str)
        ensures
            r@ == oauth2_error_text(self),
    {
        match self {
            OAuth2Error::InvalidState => "invalid state key",
            OAuth2Error::CodeRequired => "code is required",
            OAuth2Error::ProviderRequired => "provider is required",
            OAuth2Error::ProviderNotFound => "provider not found",
            OAuth2Error::BadTokenReply => "failed to decode oauth2 token response",
            OAuth2Error::TokenMissing => "oauth2 access_token missing",
            OAuth2Error::BadUserInfo => "failed to decode oauth2 user info",
            OAuth2Error::UserIdMissing => "oauth2 user id missing",
            OAuth2Error::NotBound => "oauth2 user not binded yet",
            OAuth2Error::Unauthorized => "unauthorized",
        }
    }
}

/// Whether a browser comes back with what it was sent away with, and with a code.
pub open spec fn callback_checked(
    state: Option<&str>,
    kept: Option<OAuth2StateClaims>,
    code: Option<&str>,
) -> Result<OAuth2StateClaims, OAuth2Error> {
    if state is None || state->0@.len() == 0 || kept is None || kept->0.state@ != state->0@ {
        Err(OAuth2Error::InvalidState)
    } else if code is None || code->0@.len() == 0 {
        Err(OAuth2Error::CodeRequired)
    } else {
        Ok(kept->0)
    }
}

/// Whether a browser comes back with what it was sent away with, and with a
/// code: `kept` is what its cookie tells.
pub fn check_callback(
    state: Option<&str>,
    kept: Option<OAuth2StateClaims>,
    code: Option<&str>,
) -> (r: Result<OAuth2StateClaims, OAuth2Error>)
    ensures
        r == callback_checked(state, kept, code),
{
    let sent: &str = match state {
        Some(s) => s,
        None => {
            return Err(OAuth2Error::InvalidState);
        },
    };
    if sent.is_empty() {
        return Err(OAuth2Error::InvalidState);
    }
    let claims = match kept {
        Some(c) => c,
        None => {
            return Err(OAuth2Error::InvalidState);
        },
    };
    if !same(claims.state.as_str(), sent) {
        return Err(OAuth2Error::InvalidState);
    }
    match code {
        Some(c) => {
            if c.is_empty() {
                Err(OAuth2Error::CodeRequired)
            } else {
                Ok(claims)
            }
        },
        None => Err(OAuth2Error::CodeRequired),
    }
}

/// Where a browser is sent once its user is known.
pub open spec fn page_after(action: u8) -> Seq<char> {
    if action == 2 {
        "/dashboard/profile?oauth2=true"@
    } else {
        "/dashboard/login?oauth2=true"@
    }
}

/// Where a browser is sent once its user is known: to their profile, where they
/// bound a provider, else to where they sign in.
pub fn landing_page(action: u8) -> (r: &'static str)
    ensures
        r@ == page_after(action),
{
    if action == 2 {
        "/dashboard/profile?oauth2=true"
    } else {
        "/dashboard/login?oauth2=true"
    }
}

/// The provider of a name.
pub fn find_provider<'a>(settings: &'a DashboardSettings, provider: &str) -> (r: Result<
    (String, &'a OAuth2Config),
    OAuth2Error,
>)
    ensures
        ({
            let key = text::lowered(text::trimmed(provider@));
            match r {
                Ok(found) => key.len() > 0 && found.0@ == key && settings@.oauth2.contains_key(key)
                    && settings@.oauth2[key] == *found.1,
                Err(e) => if key.len() == 0 {
                    e == OAuth2Error::ProviderRequired
                } else {
                    e == OAuth2Error::ProviderNotFound && !settings@.oauth2.contains_key(key)
                },
            }
        }),
{
    let name = trim(provider);
    let key = to_ascii_lowercase(name.as_str());
    if key.as_str().is_empty() {
        return Err(OAuth2Error::ProviderRequired);
    }
    let mut i: usize = settings.oauth2.len();
    proof {
        assert(settings.oauth2@.take(i as int) =~= settings.oauth2@);
    }
    while i > 0
        invariant
            i <= settings.oauth2@.len(),
            key@ == text::lowered(text::trimmed(provider@)),
            key@.len() > 0,
            settings::providers(settings.oauth2@.take(i as int)).contains_key(key@)
                == settings::providers(
                settings.oauth2@,
            ).contains_key(key@),
            settings::providers(settings.oauth2@).contains_key(key@) ==> settings::providers(
                settings.oauth2@.take(i as int),
            )[key@] == settings::providers(settings.oauth2@)[key@],
        decreases i,
    {
        i -= 1;
        proof {
            assert(settings.oauth2@.take(i + 1).drop_last() =~= settings.oauth2@.take(i as int));
            assert(settings.oauth2@.take(i + 1).last() == settings.oauth2@[i as int]);
        }
        if same(settings.oauth2[i].0.as_str(), key.as_str()) {
            return Ok((key, &settings.oauth2[i].1));
        }
    }
    proof {
        assert(settings.oauth2@.take(0) =~= seq![]);
    }
    Err(OAuth2Error::ProviderNotFound)
}

/// The token in the reply of a provider.
pub fn token_in_reply(reply: &Json) -> (r: Result<String, OAuth2Error>)
    ensures
        match json::as_text(json::member(*reply, "access_token"@)) {
            Some(t) => r is Ok && r->Ok_0@ == t,
            None => r == Err::<String, OAuth2Error>(OAuth2Error::TokenMissing),
        },
{
    match reply.get("access_token") {
        Some(v) => match v.text() {
            Some(t) => Ok(t.to_owned()),
            None => Err(OAuth2Error::TokenMissing),
        },
        None => Err(OAuth2Error::TokenMissing),
    }
}

/// The token in the reply of a provider, as it is written.
pub fn access_token(raw: &str) -> (r: Result<String, OAuth2Error>)
    ensures
        match jsontext::json_text(raw@) {
            Some(reply) => match json::as_text(json::member(reply, "access_token"@)) {
                Some(t) => r is Ok && r->Ok_0@ == t,
                None => r == Err::<String, OAuth2Error>(OAuth2Error::TokenMissing),
            },
            None => r == Err::<String, OAuth2Error>(OAuth2Error::BadTokenReply),
        },
{
    match parse_json(raw) {
        Some(reply) => token_in_reply(&reply),
        None => Err(OAuth2Error::BadTokenReply),
    }
}

/// Who a user is to their provider, by the path to it, if it is not empty.
pub open spec fn id_told(info: Json, path: Seq<char>) -> Option<PathTextView> {
    match jsonpath::path_text(info, jsonpath::steps_from(path, 0, seq![]), 0) {
        Some(PathTextView::Text(s)) => if s.len() == 0 {
            None
        } else {
            Some(PathTextView::Text(s))
        },
        other => other,
    }
}

/// Who a user is to their provider.
pub fn open_id_in(info: &Json, path: &str) -> (r: Result<PathText, OAuth2Error>)
    ensures
        match r {
            Ok(t) => id_told(*info, path@) == Some(t@),
            Err(e) => id_told(*info, path@) is None && e == OAuth2Error::UserIdMissing,
        },
{
    match json_path_string(info, path) {
        Some(PathText::Text(s)) => {
            if s.as_str().is_empty() {
                Err(OAuth2Error::UserIdMissing)
            } else {
                Ok(PathText::Text(s))
            }
        },
        Some(PathText::Fraction(s)) => Ok(PathText::Fraction(s)),
        None => Err(OAuth2Error::UserIdMissing),
    }
}

/// Who a user is to their provider, in what it tells of them as it is written.
pub fn open_id(raw: &str, path: &str) -> (r: Result<PathText, OAuth2Error>)
    ensures
        match jsontext::json_text(raw@) {
            Some(info) => match r {
                Ok(t) => id_told(info, path@) == Some(t@),
                Err(e) => id_told(info, path@) is None && e == OAuth2Error::UserIdMissing,
            },
            None => r is Err && r->Err_0 == OAuth2Error::BadUserInfo,
        },
{
    match parse_json(raw) {
        Some(info) => open_id_in(&info, path),
        None => Err(OAuth2Error::BadUserInfo),
    }
}

/// What is done with an identity that a provider vouches for.
#[derive(Debug, Clone, Copy, PartialEq, Eq, Structural)]
pub enum CallbackTarget {
    /// It is bound to the user who is signed in.
    Bind(u64),
    /// The user that it is bound to signs in.
    SignIn,
}

/// What is done with an identity.
pub open spec fn target_of(action: u8, signed_in: Option<u64>) -> Result<
    CallbackTarget,
    OAuth2Error,
> {
    if action == 2 {
        match signed_in {
            Some(uid) => Ok(CallbackTarget::Bind(uid)),
            None => Err(OAuth2Error::Unauthorized),
        }
    } else {
        Ok(CallbackTarget::SignIn)
    }
}

/// What is done with an identity: it is bound where that was asked for, by
/// somebody who is signed in.
pub fn callback_target(action: u8, signed_in: Option<u64>) -> (r: Result<
    CallbackTarget,
    OAuth2Error,
>)
    ensures
        r == target_of(action, signed_in),
{
    if action == 2 {
        match signed_in {
            Some(uid) => Ok(CallbackTarget::Bind(uid)),
            None => Err(OAuth2Error::Unauthorized),
        }
    } else {
        Ok(CallbackTarget::SignIn)
    }
}

/// Whether a refusal counts against the address that it was sent from.
pub open spec fn is_counted(e: OAuth2Error) -> bool {
    e is InvalidState || e is CodeRequired || e is BadTokenReply || e is TokenMissing || e
        is BadUserInfo || e is UserIdMissing
}

/// Whether a refusal counts against the address that it was sent from.
pub fn counts_as_failure(e: OAuth2Error) -> (r: bool)
    ensures
        r == is_counted(e),
{
    match e {
        OAuth2Error::InvalidState => true,
        OAuth2Error::CodeRequired => true,
        OAuth2Error::BadTokenReply => true,
        OAuth2Error::TokenMissing => true,
        OAuth2Error::BadUserInfo => true,
        OAuth2Error::UserIdMissing => true,
        _ => false,
    }
}

/// A browser that comes back is let through exactly where it brings the state that it
/// was sent away with, which is not empty, and a code; the state is looked at first.
pub proof fn only_browsers_sent_away_come_back(state: &str, kept: OAuth2StateClaims, code: &str)
    ensures
        callback_checked(Some(state), Some(kept), Some(code)) is Ok <==> state@ == kept.state@
            && state@.len() > 0 && code@.len() > 0,
        callback_checked(Some(state), Some(kept), Some(code)) matches Ok(c) ==> c == kept,
        callback_checked(None, Some(kept), Some(code)) is Err,
        callback_checked(Some(state), None, Some(code)) is Err,
        callback_checked(Some(state), Some(kept), None) is Err,
        state@ != kept.state@ ==> callback_checked(Some(state), Some(kept), Some(code)) == Err::<
            OAuth2StateClaims,
            OAuth2Error,
        >(OAuth2Error::InvalidState),
        state@ == kept.state@ && state@.len() > 0 ==> callback_checked(
            Some(state),
            Some(kept),
            None,
        ) == Err::<OAuth2StateClaims, OAuth2Error>(OAuth2Error::CodeRequired),
{
}

/// An identity is bound to the user who asked for it, and to nobody where nobody is
/// signed in; where nobody asked, whoever it is bound to signs in. The browser goes
/// back to where the user asked.
pub proof fn identities_are_bound_where_asked(action: u8, uid: u64)
    ensures
        target_of(2, Some(uid)) == Ok::<CallbackTarget, OAuth2Error>(CallbackTarget::Bind(uid)),
        target_of(2, None) == Err::<CallbackTarget, OAuth2Error>(OAuth2Error::Unauthorized),
        action != 2 ==> target_of(action, Some(uid)) == Ok::<CallbackTarget, OAuth2Error>(
            CallbackTarget::SignIn,
        ),
        action != 2 ==> target_of(action, None) == Ok::<CallbackTarget, OAuth2Error>(
            CallbackTarget::SignIn,
        ),
        "/dashboard/profile"@.is_prefix_of(page_after(2)),
        action != 2 ==> "/dashboard/login"@.is_prefix_of(page_after(action)),
{
    reveal_strlit("/dashboard/profile");
    reveal_strlit("/dashboard/profile?oauth2=true");
    reveal_strlit("/dashboard/login");
    reveal_strlit("/dashboard/login?oauth2=true");
    assert(page_after(2).subrange(0, 18) =~= "/dashboard/profile"@);
    if action != 2 {
        assert(page_after(action).subrange(0, 16) =~= "/dashboard/login"@);
    }
}

/// What a browser brings back wrongly, and what a provider answers wrongly, counts
/// against its address; an unknown provider, and a user who is not known, do not.
pub proof fn guessing_is_counted()
    ensures
        is_counted(OAuth2Error::InvalidState) && is_counted(OAuth2Error::CodeRequired),
        is_counted(OAuth2Error::BadTokenReply) && is_counted(OAuth2Error::TokenMissing),
        is_counted(OAuth2Error::BadUserInfo) && is_counted(OAuth2Error::UserIdMissing),
        !is_counted(OAuth2Error::ProviderRequired) && !is_counted(OAuth2Error::ProviderNotFound),
        !is_counted(OAuth2Error::NotBound) && !is_counted(OAuth2Error::Unauthorized),
{
}

/// Of the pairs of a form those are written that hold something, in their order.
pub proof fn empty_pairs_are_left_out(items: Seq<(Seq<char>, Seq<char>)>)
    ensures
        written_pairs(items) == items.filter(
            |e: (Seq<char>, Seq<char>)| e.1.len() > 0,
        ).map_values(|e: (Seq<char>, Seq<char>)| form_pair(e.0, e.1)),
    decreases items.len(),
{
    reveal(Seq::filter);
    if items.len() > 0 {
        empty_pairs_are_left_out(items.drop_last());
    }
    assert(written_pairs(items) =~= items.filter(
        |e: (Seq<char>, Seq<char>)| e.1.len() > 0,
    ).map_values(|e: (Seq<char>, Seq<char>)| form_pair(e.0, e.1)));
}

/// A provider sends a browser back over `https` where the request came so, by its
/// header or by the page that it came from, and else over `http`; to the host that was
/// asked for.
pub proof fn browsers_come_back_as_they_came(proto: &str, referer: &str, host: &str)
    ensures
        proto@ == "https"@ ==> callback_url(Some(proto), Some(referer), Some(host)) == "https://"@
            + host@ + "/api/v1/oauth2/callback"@,
        "https://"@.is_prefix_of(referer@) ==> callback_url(None, Some(referer), Some(host))
            == "https://"@ + host@ + "/api/v1/oauth2/callback"@,
        proto@ != "https"@ && !"https://"@.is_prefix_of(referer@) ==> callback_url(
            Some(proto),
            Some(referer),
            Some(host),
        ) == "http://"@ + host@ + "/api/v1/oauth2/callback"@,
        callback_url(None, None, Some(host)) == "http://"@ + host@ + "/api/v1/oauth2/callback"@,
{
    reveal_strlit("https");
    reveal_strlit("http");
    reveal_strlit("://");
    reveal_strlit("https://");
    reveal_strlit("http://");
    assert("https"@ + "://"@ =~= "https://"@);
    assert("http"@ + "://"@ =~= "http://"@);
}

/// The address that a browser is sent to is that of the provider, with `?` behind it or,
/// where it has one, with `&`, and then the form of the five pairs.
pub proof fn browsers_are_sent_to_the_provider(
    config: OAuth2Config,
    redirect_url: Seq<char>,
    state: Seq<char>,
)
    ensures
        ({
            let base = config.endpoint.auth_url@;
            let url = auth_url(config, redirect_url, state);
            &&& base.is_prefix_of(url)
            &&& url.len() > base.len()
            &&& url[base.len() as int] == '?' || url[base.len() as int] == '&'
            &&& url[base.len() as int] == '&' <==> search::occurs(base, "?"@)
            &&& state.len() > 0 ==> form_pair("state"@, state).is_suffix_of(url)
        }),
{
    reveal_strlit("?");
    reveal_strlit("&");
    let base = config.endpoint.auth_url@;
    let url = auth_url(config, redirect_url, state);
    assert(url.take(base.len() as int) =~= base);
    let pairs = seq![
        ("response_type"@, "code"@),
        ("client_id"@, config.client_id@),
        ("redirect_uri"@, redirect_url),
        ("scope"@, search::joined(search::texts(config.scopes@), " "@)),
        ("state"@, state),
    ];
    if state.len() > 0 {
        let written = written_pairs(pairs);
        let last = form_pair("state"@, state);
        assert(pairs.last() == ("state"@, state));
        assert(written.last() == last);
        let form = search::joined(written, "&"@);
        assert(last.is_suffix_of(form)) by {
            if written.len() == 1 {
                assert(form == written[0]);
                assert(form.skip(0) =~= last);
            } else {
                assert(form.skip(form.len() - last.len()) =~= last);
            }
        }
        assert(url.skip(url.len() - last.len()) =~= form.skip(form.len() - last.len()));
    }
}

/// What a token tells of a browser that was away is what each of its five claims tells,
/// where each is there once.
pub proof fn states_are_told_once_each(
    claims: Seq<(Seq<char>, Option<Json>)>,
    action: u64,
    provider: String,
    state: String,
    redirect_url: String,
    exp: u64,
)
    ensures
        members::only_value(claims, "action"@) == Some(Json::Unsigned(action))
            && members::only_value(claims, "provider"@) == Some(Json::Text(provider))
            && members::only_value(claims, "state"@) == Some(Json::Text(state))
            && members::only_value(claims, "redirect_url"@) == Some(Json::Text(redirect_url))
            && members::only_value(claims, "exp"@) == Some(Json::Unsigned(exp)) ==> match state_in(
            claims,
        ) {
            Some(c) => c.action == action && c.provider == provider@ && c.state == state@
                && c.redirect_url == redirect_url@ && c.exp == exp,
            None => action > 255,
        },
        members::only_value(claims, "action"@) is None || members::only_value(claims, "provider"@)
            is None || members::only_value(claims, "state"@) is None || members::only_value(
            claims,
            "redirect_url"@,
        ) is None || members::only_value(claims, "exp"@) is None ==> state_in(claims) is None,
{
}

} // verus!
