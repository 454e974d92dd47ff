//! Dynamic names: which records of which domains are set to a server's
//! addresses, and the requests to the providers that do so.
use vstd::prelude::*;

use crate::{encode, json, jsontext, search, text};
use crate::alerts::contains_id;
use crate::encode::percent_encode;
use crate::json::{Json, string_field};
use crate::jsontext::{MapError, json_string_map};
use crate::model::{DdnsResource, PublicServer};
use crate::search::{join, replace};
use crate::text::{concat2, same, trim};

verus! {

pub const METHOD_GET: u8 = 1;

pub const METHOD_POST: u8 = 2;

pub const METHOD_PATCH: u8 = 3;

pub const METHOD_DELETE: u8 = 4;

pub const METHOD_PUT: u8 = 5;

pub const REQUEST_TYPE_JSON: u8 = 1;

pub const REQUEST_TYPE_FORM: u8 = 2;

/// What a profile of dynamic names asks for.
#[derive(Debug, Clone)]
pub struct DdnsBody {
    pub enable_ipv4: bool,
    pub enable_ipv6: bool,
    pub max_retries: u64,
    pub access_id: String,
    pub access_secret: String,
    pub webhook_url: String,
    pub webhook_method: u8,
    pub webhook_request_type: u8,
    pub webhook_request_body: String,
    pub webhook_headers: String,
}

fn bool_or(value: &Json, key: &str, default: bool) -> (r: bool)
    ensures
        r == json::or_else(json::as_bool(json::member(*value, key@)), default),
{
    match value.get(key) {
        Some(v) => match v.boolean() {
            Some(b) => b,
            None => default,
        },
        None => default,
    }
}

fn u64_or(value: &Json, key: &str, default: u64) -> (r: u64)
    ensures
        r == json::or_else(json::as_u64(json::member(*value, key@)), default),
{
    match value.get(key) {
        Some(v) => match v.unsigned() {
            Some(n) => n,
            None => default,
        },
        None => default,
    }
}

/// Whether `r` is what the stored body of a profile asks for.
pub open spec fn is_asked_by(r: DdnsBody, value: Json) -> bool {
    &&& r.enable_ipv4 == json::or_else(json::as_bool(json::member(value, "enable_ipv4"@)), true)
    &&& r.enable_ipv6 == json::or_else(json::as_bool(json::member(value, "enable_ipv6"@)), false)
    &&& r.max_retries == json::or_else(json::as_u64(json::member(value, "max_retries"@)), 3)
    &&& r.access_id@ == json::text_member(value, "access_id"@)
    &&& r.access_secret@ == json::text_member(value, "access_secret"@)
    &&& r.webhook_url@ == json::text_member(value, "webhook_url"@)
    &&& r.webhook_method == json::or_else(
        json::as_u64(json::member(value, "webhook_method"@)),
        METHOD_GET as u64,
    ) % 256
    &&& r.webhook_request_type == json::or_else(
        json::as_u64(json::member(value, "webhook_request_type"@)),
        REQUEST_TYPE_JSON as u64,
    ) % 256
    &&& r.webhook_request_body@ == json::text_member(value, "webhook_request_body"@)
    &&& r.webhook_headers@ == json::text_member(value, "webhook_headers"@)
}

impl DdnsBody {
    /// What the stored body of a profile asks for. What it leaves out: IPv4
    /// alone, three attempts, and requests by `GET` with JSON.
    pub fn from_value(value: &Json) -> (r: DdnsBody)
        ensures
            is_asked_by(r, *value),
    {
        DdnsBody {
            enable_ipv4: bool_or(value, "enable_ipv4", true),
            enable_ipv6: bool_or(value, "enable_ipv6", false),
            max_retries: u64_or(value, "max_retries", 3),
            access_id: string_field(value, "access_id"),
            access_secret: string_field(value, "access_secret"),
            webhook_url: string_field(value, "webhook_url"),
            webhook_method: (u64_or(value, "webhook_method", METHOD_GET as u64) % 256) as u8,
            webhook_request_type: (u64_or(
                value,
                "webhook_request_type",
                REQUEST_TYPE_JSON as u64,
            ) % 256) as u8,
            webhook_request_body: string_field(value, "webhook_request_body"),
            webhook_headers: string_field(value, "webhook_headers"),
        }
    }
}

/// Why a request to a provider cannot be made.
#[derive(Debug, Clone, Copy, PartialEq, Eq, Structural)]
pub enum DdnsError {
    MethodNotSupported,
    RequestTypeNotSupported,
    NotJson,
    NotObject,
    MissingAccess,
}

/// The text of an error.
pub open spec fn ddns_error_text(e: DdnsError) -> Seq<char> {
    match e {
        DdnsError::MethodNotSupported => "webhook method not supported"@,
        DdnsError::RequestTypeNotSupported => "request type not supported"@,
        DdnsError::NotJson => "failed to parse json object"@,
        DdnsError::NotObject => "expected json object"@,
        DdnsError::MissingAccess => "tencentcloud access_id/access_secret are required"@,
    }
}

impl DdnsError {
    /// The text of the error.
    pub fn message(self) -> (r: &'static str)
        ensures
            r@ == ddns_error_text(self),
    {
        match self {
            DdnsError::MethodNotSupported => "webhook method not supported",
            DdnsError::RequestTypeNotSupported => "request type not supported",
            DdnsError::NotJson => "failed to parse json object",
            DdnsError::NotObject => "expected json object",
            DdnsError::MissingAccess => "tencentcloud access_id/access_secret are required",
        }
    }
}

/// What is wrong with a text that is no object of texts.
pub open spec fn map_error(e: MapError) -> DdnsError {
    match e {
        MapError::NotJson => DdnsError::NotJson,
        MapError::NotObject => DdnsError::NotObject,
    }
}

fn of_map_error(e: MapError) -> (r: DdnsError)
    ensures
        r == map_error(e),
{
    match e {
        MapError::NotJson => DdnsError::NotJson,
        MapError::NotObject => DdnsError::NotObject,
    }
}

/// The kind of address that a record holds.
pub open spec fn ip_type_of(record_type: Seq<char>) -> Seq<char> {
    if record_type == "A"@ {
        "ipv4"@
    } else if record_type == "AAAA"@ {
        "ipv6"@
    } else {
        ""@
    }
}

/// The kind of address that a record holds.
pub fn record_to_ip_type(record_type: &str) -> (r: &'static str)
    ensures
        r@ == ip_type_of(record_type@),
{
    if same(record_type, "A") {
        "ipv4"
    } else if same(record_type, "AAAA") {
        "ipv6"
    } else {
        ""
    }
}

/// A template with its marks filled in, one kind of mark after the other.
pub open spec fn webhook_text(
    raw: Seq<char>,
    body: DdnsBody,
    domain: Seq<char>,
    record_type: Seq<char>,
    ip: Seq<char>,
) -> Seq<char> {
    let s = search::replaced(text::trimmed(raw), "#ip#"@, ip);
    let s = search::replaced(s, "#domain#"@, domain);
    let s = search::replaced(s, "#type#"@, ip_type_of(record_type));
    let s = search::replaced(s, "#record#"@, record_type);
    let s = search::replaced(s, "#access_id#"@, body.access_id@);
    let s = search::replaced(s, "#access_secret#"@, body.access_secret@);
    search::replaced(s, "\r"@, ""@)
}

/// A template with its marks filled in.
pub fn format_webhook_string(
    raw: &str,
    body: &DdnsBody,
    domain: &str,
    record_type: &str,
    ip: &str,
) -> (r: String)
    ensures
        r@ == webhook_text(raw@, *body, domain@, record_type@, ip@),
{
    proof {
        reveal_strlit("#ip#");
        reveal_strlit("#domain#");
        reveal_strlit("#type#");
        reveal_strlit("#record#");
        reveal_strlit("#access_id#");
        reveal_strlit("#access_secret#");
        reveal_strlit("\r");
    }
    let s = trim(raw);
    let s = replace(s.as_str(), "#ip#", ip);
    let s = replace(s.as_str(), "#domain#", domain);
    let s = replace(s.as_str(), "#type#", record_to_ip_type(record_type));
    let s = replace(s.as_str(), "#record#", record_type);
    let s = replace(s.as_str(), "#access_id#", body.access_id.as_str());
    let s = replace(s.as_str(), "#access_secret#", body.access_secret.as_str());
    replace(s.as_str(), "\r", "")
}

/// The headers with the marks in their values filled in.
pub open spec fn filled_headers(
    items: Seq<(Seq<char>, Seq<char>)>,
    body: DdnsBody,
    domain: Seq<char>,
    record_type: Seq<char>,
    ip: Seq<char>,
) -> Seq<(Seq<char>, Seq<char>)> {
    items.map_values(
        |p: (Seq<char>, Seq<char>)| (p.0, webhook_text(p.1, body, domain, record_type, ip)),
    )
}

/// The members of an object with the marks in their values filled in.
pub fn filled_pairs(
    items: &Vec<(String, String)>,
    body: &DdnsBody,
    domain: &str,
    record_type: &str,
    ip: &str,
) -> (r: Vec<(String, String)>)
    ensures
        jsontext::pair_texts(r@) == filled_headers(
            jsontext::pair_texts(items@),
            *body,
            domain@,
            record_type@,
            ip@,
        ),
{
    let mut out: Vec<(String, String)> = Vec::new();
    let ghost all = jsontext::pair_texts(items@);
    let mut i: usize = 0;
    proof {
        assert(jsontext::pair_texts(out@) =~= filled_headers(
            all.take(0),
            *body,
            domain@,
            record_type@,
            ip@,
        ));
    }
    while i < items.len()
        invariant
            i <= items@.len(),
            all == jsontext::pair_texts(items@),
            jsontext::pair_texts(out@) == filled_headers(
                all.take(i as int),
                *body,
                domain@,
                record_type@,
                ip@,
            ),
        decreases items@.len() - i,
    {
        let value = format_webhook_string(items[i].1.as_str(), body, domain, record_type, ip);
        let pair = (items[i].0.clone(), value);
        proof {
            assert(all[i as int] == (items@[i as int].0@, items@[i as int].1@));
            assert(filled_headers(all.take(i + 1), *body, domain@, record_type@, ip@)
                =~= filled_headers(
                all.take(i as int),
                *body,
                domain@,
                record_type@,
                ip@,
            ).push((pair.0@, pair.1@)));
            assert(jsontext::pair_texts(out@.push(pair))
                =~= jsontext::pair_texts(out@).push((pair.0@, pair.1@)));
        }
        out.push(pair);
        i += 1;
    }
    proof {
        assert(all.take(all.len() as int) =~= all);
    }
    out
}

/// The headers of a request, or why there are none.
pub open spec fn headers_of(
    body: DdnsBody,
    domain: Seq<char>,
    record_type: Seq<char>,
    ip: Seq<char>,
) -> Result<Seq<(Seq<char>, Seq<char>)>, DdnsError> {
    if text::trimmed(body.webhook_headers@).len() == 0 {
        Ok(seq![])
    } else {
        match jsontext::string_map_of(body.webhook_headers@) {
            Ok(items) => Ok(filled_headers(items, body, domain, record_type, ip)),
            Err(e) => Err(map_error(e)),
        }
    }
}

/// The headers of a request: the members of the object that the profile gives,
/// with the marks in their values filled in.
pub fn webhook_headers(body: &DdnsBody, domain: &str, record_type: &str, ip: &str) -> (r: Result<
    Vec<(String, String)>,
    DdnsError,
>)
    ensures
        match r {
            Ok(v) => headers_of(*body, domain@, record_type@, ip@) == Ok::<
                Seq<(Seq<char>, Seq<char>)>,
                DdnsError,
            >(jsontext::pair_texts(v@)),
            Err(e) => headers_of(*body, domain@, record_type@, ip@) == Err::<
                Seq<(Seq<char>, Seq<char>)>,
                DdnsError,
            >(e),
        },
{
    let t = trim(body.webhook_headers.as_str());
    if t.as_str().is_empty() {
        let none: Vec<(String, String)> = Vec::new();
        proof {
            assert(jsontext::pair_texts(none@) =~= seq![]);
        }
        return Ok(none);
    }
    let items = match json_string_map(body.webhook_headers.as_str()) {
        Ok(items) => items,
        Err(e) => {
            return Err(of_map_error(e));
        },
    };
    Ok(filled_pairs(&items, body, domain, record_type, ip))
}

/// A field of a form.
pub open spec fn form_field(key: Seq<char>, value: Seq<char>) -> Seq<char> {
    encode::percent_text(vstd::utf8::encode_utf8(key), false) + "="@ + encode::percent_text(
        vstd::utf8::encode_utf8(value),
        false,
    )
}

/// The fields of a form, apart by `&`.
pub open spec fn form_text(fields: Seq<(Seq<char>, Seq<char>)>) -> Seq<char> {
    search::joined(fields.map_values(|p: (Seq<char>, Seq<char>)| form_field(p.0, p.1)), "&"@)
}

/// The fields of a form, apart by `&`.
pub fn form_of(fields: &Vec<(String, String)>) -> (r: String)
    ensures
        r@ == form_text(jsontext::pair_texts(fields@)),
{
    let mut parts: Vec<String> = Vec::new();
    let mut i: usize = 0;
    while i < fields.len()
        invariant
            i <= fields@.len(),
            i == parts@.len(),
            forall|k: int|
                0 <= k < i ==> (#[trigger] parts@[k])@ == form_field(
                    fields@[k].0@,
                    fields@[k].1@,
                ),
        decreases fields@.len() - i,
    {
        let mut field = percent_encode(fields[i].0.as_str());
        field.append("=");
        field.append(percent_encode(fields[i].1.as_str()).as_str());
        parts.push(field);
        i += 1;
    }
    proof {
        assert(search::texts(parts@) =~= jsontext::pair_texts(fields@).map_values(
            |p: (Seq<char>, Seq<char>)| form_field(p.0, p.1),
        ));
    }
    join(&parts, "&")
}

/// The body of a request, or why there is none.
pub open spec fn request_body_of(
    body: DdnsBody,
    domain: Seq<char>,
    record_type: Seq<char>,
    ip: Seq<char>,
) -> Result<Seq<char>, DdnsError> {
    if body.webhook_request_type == REQUEST_TYPE_JSON {
        Ok(webhook_text(body.webhook_request_body@, body, domain, record_type, ip))
    } else if body.webhook_request_type == REQUEST_TYPE_FORM {
        match jsontext::string_map_of(body.webhook_request_body@) {
            Ok(items) => Ok(form_text(filled_headers(items, body, domain, record_type, ip))),
            Err(e) => Err(map_error(e)),
        }
    } else {
        Err(DdnsError::RequestTypeNotSupported)
    }
}

/// The body of a request: the filled template, or the members of the object
/// that it is as a form.
pub fn webhook_body(body: &DdnsBody, domain: &str, record_type: &str, ip: &str) -> (r: Result<
    String,
    DdnsError,
>)
    ensures
        match r {
            Ok(s) => request_body_of(*body, domain@, record_type@, ip@) == Ok::<
                Seq<char>,
                DdnsError,
            >(s@),
            Err(e) => request_body_of(*body, domain@, record_type@, ip@) == Err::<
                Seq<char>,
                DdnsError,
            >(e),
        },
{
    if body.webhook_request_type == REQUEST_TYPE_JSON {
        return Ok(
            format_webhook_string(
                body.webhook_request_body.as_str(),
                body,
                domain,
                record_type,
                ip,
            ),
        );
    }
    if body.webhook_request_type != REQUEST_TYPE_FORM {
        return Err(DdnsError::RequestTypeNotSupported);
    }
    let items = match json_string_map(body.webhook_request_body.as_str()) {
        Ok(items) => items,
        Err(e) => {
            return Err(of_map_error(e));
        },
    };
    Ok(form_of(&filled_pairs(&items, body, domain, record_type, ip)))
}

/// The method of a request.
#[derive(Debug, Clone, Copy, PartialEq, Eq, Structural)]
pub enum RequestMethod {
    Get,
    Post,
    Patch,
    Delete,
    Put,
}

/// The method with the number `method`.
pub open spec fn method_of(method: u8) -> Option<RequestMethod> {
    if method == METHOD_GET {
        Some(RequestMethod::Get)
    } else if method == METHOD_POST {
        Some(RequestMethod::Post)
    } else if method == METHOD_PATCH {
        Some(RequestMethod::Patch)
    } else if method == METHOD_DELETE {
        Some(RequestMethod::Delete)
    } else if method == METHOD_PUT {
        Some(RequestMethod::Put)
    } else {
        None
    }
}

/// The method with the number `method`.
pub fn webhook_method(method: u8) -> (r: Result<RequestMethod, DdnsError>)
    ensures
        r == match method_of(method) {
            Some(m) => Ok::<RequestMethod, DdnsError>(m),
            None => Err(DdnsError::MethodNotSupported),
        },
{
    if method == METHOD_GET {
        Ok(RequestMethod::Get)
    } else if method == METHOD_POST {
        Ok(RequestMethod::Post)
    } else if method == METHOD_PATCH {
        Ok(RequestMethod::Patch)
    } else if method == METHOD_DELETE {
        Ok(RequestMethod::Delete)
    } else if method == METHOD_PUT {
        Ok(RequestMethod::Put)
    } else {
        Err(DdnsError::MethodNotSupported)
    }
}

/// A request to be sent.
pub struct WebhookRequest {
    pub url: String,
    pub method: RequestMethod,
    pub headers: Vec<(String, String)>,
    pub content: Option<String>,
    pub content_type: Option<&'static str>,
}

/// What a `WebhookRequest` holds.
pub struct WebhookView {
    pub url: Seq<char>,
    pub method: RequestMethod,
    pub headers: Seq<(Seq<char>, Seq<char>)>,
    pub content: Option<Seq<char>>,
    pub content_type: Option<Seq<char>>,
}

impl View for WebhookRequest {
    type V = WebhookView;

    open spec fn view(&self) -> WebhookView {
        WebhookView {
            url: self.url@,
            method: self.method,
            headers: jsontext::pair_texts(self.headers@),
            content: match self.content {
                Some(s) => Some(s@),
                None => None,
            },
            content_type: match self.content_type {
                Some(s) => Some(s@),
                None => None,
            },
        }
    }
}

/// The request of a profile for one record, or why there is none. `GET` and
/// `DELETE` have no body. A `#` in the address that is no mark is escaped, and
/// so are the marks, which are not filled in there.
pub open spec fn webhook_of(
    body: DdnsBody,
    domain: Seq<char>,
    record_type: Seq<char>,
    ip: Seq<char>,
) -> Result<WebhookView, DdnsError> {
    let url = webhook_text(
        search::replaced(body.webhook_url@, "#"@, "%23"@),
        body,
        domain,
        record_type,
        ip,
    );
    match (method_of(body.webhook_method), headers_of(body, domain, record_type, ip)) {
        (None, _) => Err(DdnsError::MethodNotSupported),
        (Some(_), Err(e)) => Err(e),
        (Some(method), Ok(headers)) => if method == RequestMethod::Get || method
            == RequestMethod::Delete {
            Ok(WebhookView { url, method, headers, content: None, content_type: None })
        } else {
            match request_body_of(body, domain, record_type, ip) {
                Err(e) => Err(e),
                Ok(content) => Ok(
                    WebhookView {
                        url,
                        method,
                        headers,
                        content: Some(content),
                        content_type: Some(
                            if body.webhook_request_type == REQUEST_TYPE_FORM {
                                "application/x-www-form-urlencoded"@
                            } else {
                                "application/json"@
                            },
                        ),
                    },
                ),
            }
        },
    }
}

/// The request of a profile for one record.
pub fn webhook_request(body: &DdnsBody, domain: &str, record_type: &str, ip: &str) -> (r: Result<
    WebhookRequest,
    DdnsError,
>)
    ensures
        match r {
            Ok(q) => webhook_of(*body, domain@, record_type@, ip@) == Ok::<
                WebhookView,
                DdnsError,
            >(q@),
            Err(e) => webhook_of(*body, domain@, record_type@, ip@) == Err::<
                WebhookView,
                DdnsError,
            >(e),
        },
{
    proof {
        reveal_strlit("#");
    }
    let escaped = replace(body.webhook_url.as_str(), "#", "%23");
    let url = format_webhook_string(escaped.as_str(), body, domain, record_type, ip);
    let method = match webhook_method(body.webhook_method) {
        Ok(m) => m,
        Err(e) => {
            return Err(e);
        },
    };
    let headers = match webhook_headers(body, domain, record_type, ip) {
        Ok(h) => h,
        Err(e) => {
            return Err(e);
        },
    };
    if method == RequestMethod::Get || method == RequestMethod::Delete {
        return Ok(WebhookRequest { url, method, headers, content: None, content_type: None });
    }
    let content = match webhook_body(body, domain, record_type, ip) {
        Ok(c) => c,
        Err(e) => {
            return Err(e);
        },
    };
    let content_type: &'static str = if body.webhook_request_type == REQUEST_TYPE_FORM {
        "application/x-www-form-urlencoded"
    } else {
        "application/json"
    };
    Ok(
        WebhookRequest {
            url,
            method,
            headers,
            content: Some(content),
            content_type: Some(content_type),
        },
    )
}

/// Where the records of a profile are kept.
#[derive(Debug, Clone, Copy, PartialEq, Eq, Structural)]
pub enum Provider {
    Dummy,
    Webhook,
    Cloudflare,
    HurricaneElectric,
    TencentCloud,
}

/// The provider of that name.
pub open spec fn provider_of(name: Seq<char>) -> Option<Provider> {
    if name == "dummy"@ {
        Some(Provider::Dummy)
    } else if name == "webhook"@ {
        Some(Provider::Webhook)
    } else if name == "cloudflare"@ {
        Some(Provider::Cloudflare)
    } else if name == "he"@ {
        Some(Provider::HurricaneElectric)
    } else if name == "tencentcloud"@ {
        Some(Provider::TencentCloud)
    } else {
        None
    }
}

/// A record to be set to an address.
pub struct RecordUpdate {
    pub record_type: &'static str,
    pub ip: String,
}

/// The records in `v` with their addresses.
pub open spec fn updates(v: Seq<RecordUpdate>) -> Seq<(Seq<char>, Seq<char>)> {
    v.map_values(|u: RecordUpdate| (u.record_type@, u.ip@))
}

/// The records to be set: for each kind of address that is switched on and
/// known, IPv4 first.
pub open spec fn records_to_set(body: DdnsBody, ipv4: Seq<char>, ipv6: Seq<char>) -> Seq<
    (Seq<char>, Seq<char>),
> {
    (if body.enable_ipv4 && ipv4.len() > 0 {
        seq![("A"@, ipv4)]
    } else {
        seq![]
    }) + (if body.enable_ipv6 && ipv6.len() > 0 {
        seq![("AAAA"@, ipv6)]
    } else {
        seq![]
    })
}

fn record_updates(body: &DdnsBody, ipv4: &str, ipv6: &str) -> (r: Vec<RecordUpdate>)
    ensures
        updates(r@) == records_to_set(*body, ipv4@, ipv6@),
{
    let mut out: Vec<RecordUpdate> = Vec::new();
    if body.enable_ipv4 && !ipv4.is_empty() {
        out.push(RecordUpdate { record_type: "A", ip: ipv4.to_owned() });
    }
    if body.enable_ipv6 && !ipv6.is_empty() {
        out.push(RecordUpdate { record_type: "AAAA", ip: ipv6.to_owned() });
    }
    proof {
        assert(updates(out@) =~= records_to_set(*body, ipv4@, ipv6@));
    }
    out
}

/// What is done for a domain of a profile: where, and which records are set.
pub open spec fn plan_of(
    provider: Seq<char>,
    body: DdnsBody,
    ipv4: Seq<char>,
    ipv6: Seq<char>,
) -> Option<(Provider, Seq<(Seq<char>, Seq<char>)>)> {
    match provider_of(provider) {
        Some(p) => Some(
            (
                p,
                if p == Provider::Dummy {
                    seq![]
                } else {
                    records_to_set(body, ipv4, ipv6)
                },
            ),
        ),
        None => None,
    }
}

/// What is done for a domain of a profile: where, and which records are set. The
/// dummy sets none. There is an error where there is no such provider.
pub fn update_domain(provider: &str, body: &DdnsBody, ipv4: &str, ipv6: &str) -> (r: Result<
    (Provider, Vec<RecordUpdate>),
    String,
>)
    ensures
        r.is_ok() == plan_of(provider@, *body, ipv4@, ipv6@).is_some(),
        r matches Ok(plan) ==> plan_of(provider@, *body, ipv4@, ipv6@) == Some(
            (plan.0, updates(plan.1@)),
        ),
        r matches Err(e) ==> e@ == "cannot find DDNS provider "@ + provider@,
{
    if same(provider, "dummy") {
        let none: Vec<RecordUpdate> = Vec::new();
        proof {
            assert(updates(none@) =~= seq![]);
        }
        Ok((Provider::Dummy, none))
    } else if same(provider, "webhook") {
        Ok((Provider::Webhook, record_updates(body, ipv4, ipv6)))
    } else if same(provider, "cloudflare") {
        Ok((Provider::Cloudflare, record_updates(body, ipv4, ipv6)))
    } else if same(provider, "he") {
        Ok((Provider::HurricaneElectric, record_updates(body, ipv4, ipv6)))
    } else if same(provider, "tencentcloud") {
        Ok((Provider::TencentCloud, record_updates(body, ipv4, ipv6)))
    } else {
        Err(concat2("cannot find DDNS provider ", provider))
    }
}

/// How often a domain is tried.
pub open spec fn tries(max_retries: u64) -> u64 {
    if max_retries < 1 {
        1
    } else if max_retries > 10 {
        10
    } else {
        max_retries
    }
}

/// How often a domain is tried: as often as the profile says, but once at least
/// and ten times at most.
pub fn attempts(body: &DdnsBody) -> (r: u64)
    ensures
        r == tries(body.max_retries),
        1 <= r <= 10,
        1 <= body.max_retries <= 10 ==> r == body.max_retries,
        body.max_retries == 0 ==> r == 1,
        body.max_retries > 10 ==> r == 10,
{
    if body.max_retries < 1 {
        1
    } else if body.max_retries > 10 {
        10
    } else {
        body.max_retries
    }
}

/// What follows an attempt on a domain.
#[derive(Debug, Clone, Copy, PartialEq, Eq, Structural)]
pub enum AttemptStep {
    NextDomain,
    TryAgain,
    GiveUp,
}

/// What follows the attempt number `attempt` of `attempts`.
pub open spec fn step_after(succeeded: bool, attempt: u64, attempts: u64) -> AttemptStep {
    if succeeded {
        AttemptStep::NextDomain
    } else if attempt == attempts {
        AttemptStep::GiveUp
    } else {
        AttemptStep::TryAgain
    }
}

/// What follows the attempt number `attempt` of `attempts`: the next domain
/// after a success, and the end of the profile after the last failure.
pub fn after_attempt(succeeded: bool, attempt: u64, attempts: u64) -> (r: AttemptStep)
    ensures
        r == step_after(succeeded, attempt, attempts),
{
    if succeeded {
        AttemptStep::NextDomain
    } else if attempt == attempts {
        AttemptStep::GiveUp
    } else {
        AttemptStep::TryAgain
    }
}

/// The first entry for a profile.
pub open spec fn domains_for(overrides: Seq<(u64, Vec<String>)>, id: u64) -> Option<Seq<Seq<char>>>
    decreases overrides.len(),
{
    if overrides.len() == 0 {
        None
    } else if overrides[0].0 == id {
        Some(search::texts(overrides[0].1@))
    } else {
        domains_for(overrides.drop_first(), id)
    }
}

/// The domains of a profile on a server: those that the server has for it, or
/// the profile's own.
pub open spec fn domains_of(server: PublicServer, profile: DdnsResource) -> Seq<Seq<char>> {
    match domains_for(server.override_ddns_domains@, profile.id) {
        Some(d) => if d.len() > 0 {
            d
        } else {
            search::texts(profile.domains@)
        },
        None => search::texts(profile.domains@),
    }
}

fn copy_texts(v: &Vec<String>) -> (r: Vec<String>)
    ensures
        search::texts(r@) == search::texts(v@),
{
    let mut out: Vec<String> = Vec::new();
    let mut i: usize = 0;
    while i < v.len()
        invariant
            i <= v@.len(),
            i == out@.len(),
            forall|k: int| 0 <= k < i ==> (#[trigger] out@[k])@ == v@[k]@,
        decreases v@.len() - i,
    {
        out.push(v[i].clone());
        i += 1;
    }
    proof {
        assert(search::texts(out@) =~= search::texts(v@));
    }
    out
}

/// The domains of a profile on a server.
pub fn profile_domains(server: &PublicServer, profile: &DdnsResource) -> (r: Vec<String>)
    ensures
        search::texts(r@) == domains_of(*server, *profile),
{
    let overrides = &server.override_ddns_domains;
    let mut i: usize = 0;
    proof {
        assert(overrides@.skip(0) =~= overrides@);
    }
    while i < overrides.len()
        invariant
            i <= overrides@.len(),
            overrides == server.override_ddns_domains,
            domains_for(overrides@.skip(i as int), profile.id) == domains_for(
                overrides@,
                profile.id,
            ),
        decreases overrides@.len() - i,
    {
        if overrides[i].0 == profile.id {
            if overrides[i].1.len() > 0 {
                proof {
                    assert(search::texts(overrides@[i as int].1@).len() > 0);
                }
                return copy_texts(&overrides[i].1);
            }
            proof {
                assert(search::texts(overrides@[i as int].1@).len() == 0);
            }
            return copy_texts(&profile.domains);
        }
        proof {
            assert(overrides@.skip(i as int).drop_first() =~= overrides@.skip(i + 1));
        }
        i += 1;
    }
    copy_texts(&profile.domains)
}

/// Whether the records of a server are set at all.
pub open spec fn is_updated(server: PublicServer, ipv4: Seq<char>, ipv6: Seq<char>) -> bool {
    server.enable_ddns && (ipv4.len() > 0 || ipv6.len() > 0)
}

/// Whether the records of a server are set at all: dynamic names are switched on
/// and an address is known.
pub fn wants_update(server: &PublicServer, ipv4: &str, ipv6: &str) -> (r: bool)
    ensures
        r == is_updated(*server, ipv4@, ipv6@),
{
    server.enable_ddns && !(ipv4.is_empty() && ipv6.is_empty())
}

/// The numbers of those of `profiles` that a server uses, in order.
pub open spec fn used_profiles(profiles: Seq<DdnsResource>, ids: Seq<u64>) -> Seq<int>
    decreases profiles.len(),
{
    if profiles.len() == 0 {
        seq![]
    } else {
        let before = used_profiles(profiles.drop_last(), ids);
        if ids.contains(profiles.last().id) {
            before.push(profiles.len() - 1)
        } else {
            before
        }
    }
}

/// The positions of those of `profiles` that a server uses, in order.
pub fn ddns_profiles_for_server(profiles: &Vec<DdnsResource>, ids: &Vec<u64>) -> (r: Vec<usize>)
    ensures
        r@.map_values(|n: usize| n as int) == used_profiles(profiles@, ids@),
{
    let mut out: Vec<usize> = Vec::new();
    let mut i: usize = 0;
    proof {
        assert(out@.map_values(|n: usize| n as int) =~= used_profiles(profiles@.take(0), ids@));
    }
    while i < profiles.len()
        invariant
            i <= profiles@.len(),
            out@.map_values(|n: usize| n as int) == used_profiles(
                profiles@.take(i as int),
                ids@,
            ),
        decreases profiles@.len() - i,
    {
        proof {
            assert(profiles@.take(i + 1).drop_last() =~= profiles@.take(i as int));
        }
        if contains_id(ids, profiles[i].id) {
            proof {
                assert(out@.push(i).map_values(|n: usize| n as int) =~= out@.map_values(
                    |n: usize| n as int,
                ).push(i as int));
            }
            out.push(i);
        }
        i += 1;
    }
    proof {
        assert(profiles@.take(profiles@.len() as int) =~= profiles@);
    }
    out
}

/// An `A` record is set to the shorter address and an `AAAA` record to the longer,
/// each where it is switched on and known, the `A` record first; no other is set.
pub proof fn records_hold_addresses_of_their_kind(
    body: DdnsBody,
    ipv4: Seq<char>,
    ipv6: Seq<char>,
)
    ensures
        ({
            let set = records_to_set(body, ipv4, ipv6);
            &&& forall|r: (Seq<char>, Seq<char>)| #[trigger]
                set.contains(r) <==> (r == ("A"@, ipv4) && body.enable_ipv4 && ipv4.len() > 0) || (r
                    == ("AAAA"@, ipv6) && body.enable_ipv6 && ipv6.len() > 0)
            &&& set.len() <= 2
            &&& set.len() == 2 ==> set[0] == ("A"@, ipv4) && set[1] == ("AAAA"@, ipv6)
        }),
{
    let set = records_to_set(body, ipv4, ipv6);
    if body.enable_ipv4 && ipv4.len() > 0 {
        assert(set[0] == ("A"@, ipv4));
    }
    if body.enable_ipv6 && ipv6.len() > 0 {
        assert(set[set.len() - 1] == ("AAAA"@, ipv6));
    }
}

/// A domain on which every attempt fails is tried as often as the profile says, from
/// one to ten times, and then given up; a success ends the attempts.
pub proof fn domains_are_tried_as_often_as_asked(max_retries: u64, attempt: u64)
    requires
        1 <= attempt <= tries(max_retries),
    ensures
        attempt < tries(max_retries) ==> step_after(false, attempt, tries(max_retries))
            == AttemptStep::TryAgain,
        attempt == tries(max_retries) ==> step_after(false, attempt, tries(max_retries))
            == AttemptStep::GiveUp,
        step_after(true, attempt, tries(max_retries)) == AttemptStep::NextDomain,
        1 <= max_retries <= 10 ==> tries(max_retries) == max_retries,
        tries(0) == 1,
        max_retries >= 10 ==> tries(max_retries) == 10,
{
}

/// Records are set only where dynamic names are switched on and some address is
/// known, and then always.
pub proof fn records_are_set_where_an_address_is_known(
    server: PublicServer,
    ipv4: Seq<char>,
    ipv6: Seq<char>,
)
    ensures
        !server.enable_ddns ==> !is_updated(server, ipv4, ipv6),
        !is_updated(server, seq![], seq![]),
        server.enable_ddns && ipv4.len() > 0 ==> is_updated(server, ipv4, ipv6),
        server.enable_ddns && ipv6.len() > 0 ==> is_updated(server, ipv4, ipv6),
{
}

proof fn lemma_domains_for(overrides: Seq<(u64, Vec<String>)>, id: u64, at: int)
    requires
        0 <= at <= overrides.len(),
        forall|i: int| 0 <= i < at ==> (#[trigger] overrides[i]).0 != id,
        at < overrides.len() ==> overrides[at].0 == id,
    ensures
        domains_for(overrides, id) == if at < overrides.len() {
            Some(search::texts(overrides[at].1@))
        } else {
            None
        },
    decreases overrides.len(),
{
    if at > 0 {
        let rest = overrides.drop_first();
        assert forall|i: int| 0 <= i < at - 1 implies (#[trigger] rest[i]).0 != id by {
            assert(rest[i] == overrides[i + 1]);
        }
        lemma_domains_for(rest, id, at - 1);
    }
}

/// The domains that a server has for a profile count before the profile's own, where
/// there are any.
pub proof fn domains_of_the_server_count_first(server: PublicServer, profile: DdnsResource, at: int)
    requires
        0 <= at <= server.override_ddns_domains@.len(),
        forall|i: int|
            0 <= i < at ==> (#[trigger] server.override_ddns_domains@[i]).0 != profile.id,
        at < server.override_ddns_domains@.len() ==> server.override_ddns_domains@[at].0
            == profile.id,
    ensures
        domains_of(server, profile) == if at < server.override_ddns_domains@.len()
            && server.override_ddns_domains@[at].1@.len() > 0 {
            search::texts(server.override_ddns_domains@[at].1@)
        } else {
            search::texts(profile.domains@)
        },
{
    lemma_domains_for(server.override_ddns_domains@, profile.id, at);
    if at < server.override_ddns_domains@.len() {
        assert(search::texts(server.override_ddns_domains@[at].1@).len()
            == server.override_ddns_domains@[at].1@.len());
    }
}

/// A server uses those profiles whose number it names, and no other, each once and in
/// their order.
pub proof fn servers_use_the_profiles_they_name(profiles: Seq<DdnsResource>, ids: Seq<u64>)
    ensures
        forall|k: int|
            0 <= k < profiles.len() ==> (used_profiles(profiles, ids).contains(k)
                <==> ids.contains((#[trigger] profiles[k]).id)),
        forall|i: int|
            0 <= i < used_profiles(profiles, ids).len() ==> 0 <= #[trigger] used_profiles(
                profiles,
                ids,
            )[i] < profiles.len(),
        forall|i: int, j: int|
            0 <= i < j < used_profiles(profiles, ids).len() ==> #[trigger] used_profiles(
                profiles,
                ids,
            )[i] < #[trigger] used_profiles(profiles, ids)[j],
    decreases profiles.len(),
{
    if profiles.len() > 0 {
        let front = profiles.drop_last();
        let before = used_profiles(front, ids);
        let all = used_profiles(profiles, ids);
        servers_use_the_profiles_they_name(front, ids);
        assert forall|k: int| 0 <= k < profiles.len() implies (all.contains(k) <==> ids.contains(
            (#[trigger] profiles[k]).id,
        )) by {
            if k < front.len() {
                assert(front[k] == profiles[k]);
                if before.contains(k) {
                    let i = choose|i: int| 0 <= i < before.len() && before[i] == k;
                    assert(all[i] == k);
                }
                if all.contains(k) {
                    let i = choose|i: int| 0 <= i < all.len() && all[i] == k;
                    if i < before.len() {
                        assert(before[i] == k);
                    }
                }
            } else {
                if ids.contains(profiles[k].id) {
                    assert(all[all.len() - 1] == k);
                } else if all.contains(k) {
                    let i = choose|i: int| 0 <= i < all.len() && all[i] == k;
                    assert(before[i] == k);
                }
            }
        }
        assert forall|i: int| 0 <= i < all.len() implies 0 <= #[trigger] all[i]
            < profiles.len() by {
            if i < before.len() {
                assert(all[i] == before[i]);
            }
        }
        assert forall|i: int, j: int| 0 <= i < j < all.len() implies #[trigger] all[i]
            < #[trigger] all[j] by {
            if j < before.len() {
                assert(before[i] < before[j]);
            } else {
                assert(all[i] == before[i]);
            }
        }
    }
}

/// Requests by the methods 1 and 4, `GET` and `DELETE`, have no content; those by 2, 3
/// and 5 have one, of the kind that the profile asks for. There are no other methods.
pub proof fn only_some_methods_carry_content(
    body: DdnsBody,
    domain: Seq<char>,
    record_type: Seq<char>,
    ip: Seq<char>,
)
    ensures
        webhook_of(body, domain, record_type, ip) matches Ok(q) ==> {
            &&& body.webhook_method == 1 <==> q.method == RequestMethod::Get
            &&& body.webhook_method == 2 <==> q.method == RequestMethod::Post
            &&& body.webhook_method == 3 <==> q.method == RequestMethod::Patch
            &&& body.webhook_method == 4 <==> q.method == RequestMethod::Delete
            &&& body.webhook_method == 5 <==> q.method == RequestMethod::Put
            &&& q.content is Some <==> q.content_type is Some
            &&& q.content is None <==> body.webhook_method == 1 || body.webhook_method == 4
            &&& q.content is Some && body.webhook_request_type == 1 ==> q.content_type == Some(
                "application/json"@,
            ) && q.content == Some(
                webhook_text(body.webhook_request_body@, body, domain, record_type, ip),
            )
            &&& q.content is Some && body.webhook_request_type == 2 ==> q.content_type == Some(
                "application/x-www-form-urlencoded"@,
            )
            &&& q.content is Some ==> body.webhook_request_type == 1 || body.webhook_request_type
                == 2
        },
        webhook_of(body, domain, record_type, ip) == Err::<WebhookView, DdnsError>(
            DdnsError::MethodNotSupported,
        ) <==> body.webhook_method == 0 || body.webhook_method > 5,
{
}

proof fn lemma_marks()
    ensures
        search::is_mark("#ip#"@) && "#ip#"@.len() == 4,
        search::is_mark("#domain#"@) && "#domain#"@.len() == 8 && "#domain#"@[1] == 'd',
        search::is_mark("#type#"@) && "#type#"@.len() == 6,
        search::is_mark("#record#"@) && "#record#"@.len() == 8 && "#record#"@[1] == 'r',
        search::is_mark("#access_id#"@) && "#access_id#"@.len() == 11,
        search::is_mark("#access_secret#"@) && "#access_secret#"@.len() == 15,
        "\r"@.len() == 1 && "\r"@[0] == '\r',
{
    reveal_strlit("#ip#");
    reveal_strlit("#domain#");
    reveal_strlit("#type#");
    reveal_strlit("#record#");
    reveal_strlit("#access_id#");
    reveal_strlit("#access_secret#");
    reveal_strlit("\r");
}

/// Whether a text has neither `#` nor a carriage return.
pub open spec fn is_unmarked(s: Seq<char>) -> bool {
    search::has_no_hash(s) && forall|i: int| 0 <= i < s.len() ==> #[trigger] s[i] != '\r'
}

proof fn lemma_step(a: Seq<char>, m: Seq<char>, b: Seq<char>, other: Seq<char>, by: Seq<char>)
    requires
        search::is_mark(m),
        search::is_mark(other),
        m != other,
        search::has_no_hash(a),
        search::has_no_hash(b),
    ensures
        search::replaced(a + m + b, other, by) == a + m + b,
{
    search::one_mark_is_no_other(a, m, b, other);
    search::absent_patterns_are_not_replaced(a + m + b, other, by);
}

proof fn lemma_no_return(s: Seq<char>)
    requires
        is_unmarked(s),
    ensures
        search::replaced(s, "\r"@, ""@) == s,
{
    lemma_marks();
    assert forall|at: int| !search::occurs_at(s, "\r"@, at) by {
        if search::occurs_at(s, "\r"@, at) {
            assert(s.subrange(at, at + 1)[0] == '\r');
            assert(s[at] == '\r');
        }
    }
    search::absent_patterns_are_not_replaced(s, "\r"@, ""@);
}

proof fn lemma_filled(a: Seq<char>, b: Seq<char>, v: Seq<char>)
    requires
        is_unmarked(a),
        is_unmarked(b),
        is_unmarked(v),
    ensures
        is_unmarked(a + v + b),
{
    let s = a + v + b;
    assert forall|i: int| 0 <= i < s.len() implies #[trigger] s[i] != '#' && s[i] != '\r' by {
        if i < a.len() {
            assert(s[i] == a[i]);
        } else if i < a.len() + v.len() {
            assert(s[i] == v[i - a.len()]);
        } else {
            assert(s[i] == b[i - a.len() - v.len()]);
        }
    }
}

/// A text with the first `n` marks filled, one kind after the other.
spec fn after_marks(s: Seq<char>, marks: Seq<(Seq<char>, Seq<char>)>, n: nat) -> Seq<char>
    decreases n,
{
    if n == 0 {
        s
    } else {
        search::replaced(
            after_marks(s, marks, (n - 1) as nat),
            marks[n - 1].0,
            marks[n - 1].1,
        )
    }
}

proof fn lemma_after_marks(
    a: Seq<char>,
    b: Seq<char>,
    marks: Seq<(Seq<char>, Seq<char>)>,
    k: int,
    n: nat,
)
    requires
        0 <= k < marks.len(),
        n <= marks.len(),
        is_unmarked(a),
        is_unmarked(b),
        is_unmarked(marks[k].1),
        forall|j: int| 0 <= j < marks.len() ==> search::is_mark((#[trigger] marks[j]).0),
        forall|j: int| 0 <= j < marks.len() && j != k ==> (#[trigger] marks[j]).0 != marks[k].0,
    ensures
        after_marks(a + marks[k].0 + b, marks, n) == if n <= k {
            a + marks[k].0 + b
        } else {
            a + marks[k].1 + b
        },
    decreases n,
{
    if n > 0 {
        lemma_after_marks(a, b, marks, k, (n - 1) as nat);
        let j = n - 1;
        assert(search::is_mark(marks[j].0));
        if j < k {
            lemma_step(a, marks[k].0, b, marks[j].0, marks[j].1);
        } else if j == k {
            search::lemma_mark_is_filled(a, marks[k].0, b, marks[k].1);
        } else {
            lemma_filled(a, b, marks[k].1);
            search::lemma_no_mark_in(a + marks[k].1 + b, marks[j].0, marks[j].1);
        }
    }
}

/// The marks of a template and what they stand for.
spec fn marks_of(
    body: DdnsBody,
    domain: Seq<char>,
    record_type: Seq<char>,
    ip: Seq<char>,
) -> Seq<(Seq<char>, Seq<char>)> {
    seq![
        ("#ip#"@, ip),
        ("#domain#"@, domain),
        ("#type#"@, ip_type_of(record_type)),
        ("#record#"@, record_type),
        ("#access_id#"@, body.access_id@),
        ("#access_secret#"@, body.access_secret@),
    ]
}

proof fn lemma_webhook_text(
    raw: Seq<char>,
    body: DdnsBody,
    domain: Seq<char>,
    record_type: Seq<char>,
    ip: Seq<char>,
)
    ensures
        webhook_text(raw, body, domain, record_type, ip) == search::replaced(
            after_marks(text::trimmed(raw), marks_of(body, domain, record_type, ip), 6),
            "\r"@,
            ""@,
        ),
{
    reveal_with_fuel(after_marks, 7);
}

proof fn lemma_filled_template(
    a: Seq<char>,
    b: Seq<char>,
    body: DdnsBody,
    domain: Seq<char>,
    record_type: Seq<char>,
    ip: Seq<char>,
    k: int,
)
    requires
        0 <= k < 6,
        is_unmarked(a),
        is_unmarked(b),
        a.len() > 0 ==> !text::is_white(a[0]),
        b.len() > 0 ==> !text::is_white(b.last()),
        is_unmarked(marks_of(body, domain, record_type, ip)[k].1),
    ensures
        webhook_text(
            a + marks_of(body, domain, record_type, ip)[k].0 + b,
            body,
            domain,
            record_type,
            ip,
        ) == a + marks_of(body, domain, record_type, ip)[k].1 + b,
{
    let marks = marks_of(body, domain, record_type, ip);
    lemma_marks();
    assert forall|j: int| 0 <= j < marks.len() implies search::is_mark(
        (#[trigger] marks[j]).0,
    ) by {}
    assert forall|j: int| 0 <= j < marks.len() && j != k implies (#[trigger] marks[j]).0
        != marks[k].0 by {}
    lemma_webhook_text(a + marks[k].0 + b, body, domain, record_type, ip);
    assert(search::is_mark(marks[k].0));
    lemma_bare(a, marks[k].0, b);
    lemma_after_marks(a, b, marks, k, 6);
    lemma_filled(a, b, marks[k].1);
    lemma_no_return(a + marks[k].1 + b);
}

proof fn lemma_ip_types()
    ensures
        ip_type_of("A"@) == "ipv4"@,
        ip_type_of("AAAA"@) == "ipv6"@,
        forall|r: Seq<char>| is_unmarked(#[trigger] ip_type_of(r)),
{
    reveal_strlit("A");
    reveal_strlit("AAAA");
    reveal_strlit("ipv4");
    reveal_strlit("ipv6");
    reveal_strlit("");
    assert("A"@.len() != "AAAA"@.len());
}

/// Each mark of a template is filled with what it names: the address, the domain, the
/// kind of address, the type of record, and the two halves of the access. The text
/// around it is kept.
pub proof fn marks_are_filled_with_what_they_name(
    a: Seq<char>,
    b: Seq<char>,
    body: DdnsBody,
    domain: Seq<char>,
    record_type: Seq<char>,
    ip: Seq<char>,
)
    requires
        is_unmarked(a),
        is_unmarked(b),
        a.len() > 0 ==> !text::is_white(a[0]),
        b.len() > 0 ==> !text::is_white(b.last()),
        is_unmarked(ip),
        is_unmarked(domain),
        is_unmarked(record_type),
        is_unmarked(body.access_id@),
        is_unmarked(body.access_secret@),
    ensures
        ({
            let w = |raw: Seq<char>| webhook_text(raw, body, domain, record_type, ip);
            &&& w(a + "#ip#"@ + b) == a + ip + b
            &&& w(a + "#domain#"@ + b) == a + domain + b
            &&& w(a + "#record#"@ + b) == a + record_type + b
            &&& w(a + "#access_id#"@ + b) == a + body.access_id@ + b
            &&& w(a + "#access_secret#"@ + b) == a + body.access_secret@ + b
            &&& record_type == "A"@ ==> w(a + "#type#"@ + b) == a + "ipv4"@ + b
            &&& record_type == "AAAA"@ ==> w(a + "#type#"@ + b) == a + "ipv6"@ + b
        }),
{
    lemma_ip_types();
    lemma_filled_template(a, b, body, domain, record_type, ip, 0);
    lemma_filled_template(a, b, body, domain, record_type, ip, 1);
    lemma_filled_template(a, b, body, domain, record_type, ip, 2);
    lemma_filled_template(a, b, body, domain, record_type, ip, 3);
    lemma_filled_template(a, b, body, domain, record_type, ip, 4);
    lemma_filled_template(a, b, body, domain, record_type, ip, 5);
}

proof fn lemma_bare(a: Seq<char>, m: Seq<char>, b: Seq<char>)
    requires
        search::is_mark(m),
        a.len() > 0 ==> !text::is_white(a[0]),
        b.len() > 0 ==> !text::is_white(b.last()),
    ensures
        text::trimmed(a + m + b) == a + m + b,
{
    let s = a + m + b;
    assert(s[0] == if a.len() > 0 {
        a[0]
    } else {
        m[0]
    });
    assert(s[s.len() - 1] == if b.len() > 0 {
        b[b.len() - 1]
    } else {
        m[m.len() - 1]
    });
    let r = text::trimming_takes_white_space_at_the_ends(s);
    assert(r.0 == 0 && r.1 == s.len()) by {
        if r.0 > 0 {
            assert(text::is_white(s[0]));
        }
        if r.1 < s.len() {
            assert(text::is_white(s[s.len() - 1]));
        }
    }
    assert(s.subrange(0, s.len() as int) =~= s);
}

/// What a profile says counts, and where it says nothing: the shorter addresses alone,
/// three attempts, and requests by `GET` with JSON.
pub proof fn profiles_say_what_is_asked(r: DdnsBody, value: Json)
    requires
        is_asked_by(r, value),
    ensures
        json::member(value, "enable_ipv4"@) matches Some(Json::Bool(b)) ==> r.enable_ipv4 == b,
        json::member(value, "enable_ipv4"@) is None ==> r.enable_ipv4,
        json::member(value, "enable_ipv6"@) matches Some(Json::Bool(b)) ==> r.enable_ipv6 == b,
        json::member(value, "enable_ipv6"@) is None ==> !r.enable_ipv6,
        json::member(value, "max_retries"@) matches Some(Json::Unsigned(n)) ==> r.max_retries == n,
        json::member(value, "max_retries"@) is None ==> r.max_retries == 3,
        json::member(value, "access_id"@) matches Some(Json::Text(s)) ==> r.access_id@ == s@,
        json::member(value, "access_secret"@) matches Some(Json::Text(s)) ==> r.access_secret@
            == s@,
        json::member(value, "webhook_url"@) matches Some(Json::Text(s)) ==> r.webhook_url@ == s@,
        json::member(value, "webhook_method"@) matches Some(Json::Unsigned(n)) ==> (n <= 255
            ==> r.webhook_method == n),
        json::member(value, "webhook_method"@) is None ==> r.webhook_method == 1,
        json::member(value, "webhook_request_type"@) matches Some(Json::Unsigned(n)) ==> (n <= 255
            ==> r.webhook_request_type == n),
        json::member(value, "webhook_request_type"@) is None ==> r.webhook_request_type == 1,
        json::member(value, "webhook_request_body"@) matches Some(Json::Text(s))
            ==> r.webhook_request_body@ == s@,
        json::member(value, "webhook_headers"@) matches Some(Json::Text(s)) ==> r.webhook_headers@
            == s@,
{
}

/// Each of the five providers has its own name, and there is no other. All but the dummy
/// have the records set that a profile asks for.
pub proof fn providers_set_the_records_asked_for(
    name: Seq<char>,
    body: DdnsBody,
    ipv4: Seq<char>,
    ipv6: Seq<char>,
)
    ensures
        ({
            let set = records_to_set(body, ipv4, ipv6);
            let plan = |name: Seq<char>| plan_of(name, body, ipv4, ipv6);
            &&& plan("webhook"@) == Some((Provider::Webhook, set))
            &&& plan("cloudflare"@) == Some((Provider::Cloudflare, set))
            &&& plan("he"@) == Some((Provider::HurricaneElectric, set))
            &&& plan("tencentcloud"@) == Some((Provider::TencentCloud, set))
            &&& plan("dummy"@) matches Some(p) && p.0 == Provider::Dummy && p.1.len() == 0
            &&& plan(name) is Some ==> name == "webhook"@ || name == "cloudflare"@ || name == "he"@
                || name == "tencentcloud"@ || name == "dummy"@
        }),
{
    reveal_strlit("webhook");
    reveal_strlit("cloudflare");
    reveal_strlit("he");
    reveal_strlit("tencentcloud");
    reveal_strlit("dummy");
    assert("webhook"@.len() == 7 && "cloudflare"@.len() == 10 && "he"@.len() == 2
        && "tencentcloud"@.len() == 12 && "dummy"@.len() == 5);
}

} // verus!
