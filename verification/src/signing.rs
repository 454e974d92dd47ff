//! Signed requests to the name service of Tencent Cloud.
use hmac::{Hmac, Mac};
use sha2::{Digest, Sha256};
use vstd::prelude::*;

use crate::{date, decimal, encode, json, jsontext, search, text};
use crate::date::{pad, tencentcloud_date};
use crate::decimal::to_decimal;
use crate::encode::{bytes_hex, percent_encode};
use crate::json::Json;
use crate::jsontext::{parse_json, quote};
use crate::search::join;
use crate::text::{concat2, to_ascii_lowercase};

verus! {

/// The SHA-256 digest of `data`, by the crate `sha2`.
pub uninterp spec fn sha256(data: Seq<u8>) -> Seq<u8>;

/// The HMAC-SHA-256 of `data` under `key`, by the crates `hmac` and `sha2`.
pub uninterp spec fn hmac_of(key: Seq<u8>, data: Seq<u8>) -> Seq<u8>;

/// Calls `sha2::Sha256::digest`, which gives 32 bytes.
#[verifier::external_body]
fn sha2_digest(data: &[u8]) -> (r: Vec<u8>)
    ensures
        r@ == sha256(data@),
        r@.len() == 32,
{
    Sha256::digest(data).to_vec()
}

/// Calls `hmac::Hmac::<Sha256>`: a key of any length is taken, the data fed in
/// and the code read out, which has 32 bytes.
#[verifier::external_body]
fn hmac_sha256(key: &[u8], data: &[u8]) -> (r: Vec<u8>)
    ensures
        r@ == hmac_of(key@, data@),
        r@.len() == 32,
{
    let mut mac = Hmac::<Sha256>::new_from_slice(key).expect("a key of any length is taken");
    mac.update(data);
    mac.finalize().into_bytes().to_vec()
}

/// The bytes of a text.
pub open spec fn bytes_of(s: Seq<char>) -> Seq<u8> {
    vstd::utf8::encode_utf8(s)
}

/// The digest of a text, in hexadecimal digits.
pub open spec fn digest_text(s: Seq<char>) -> Seq<char> {
    encode::hex_text(sha256(bytes_of(s)))
}

/// The digest of `data`, in hexadecimal digits.
pub fn sha256_hex(data: &[u8]) -> (r: String)
    ensures
        r@ == encode::hex_text(sha256(data@)),
        r@.len() == 64,
{
    let d = sha2_digest(data);
    bytes_hex(&d)
}

/// The request in the form that is signed, `digest` being that of its body.
pub open spec fn canonical_request(action: Seq<char>, digest: Seq<char>) -> Seq<char> {
    "POST\n/\n\ncontent-type:application/json; charset=utf-8\nhost:dnspod.tencentcloudapi.com\nx-tc-action:"@
        + text::lowered(action) + "\n\ncontent-type;host;x-tc-action\n"@ + digest
}

/// The request in the form that is signed.
pub fn request_to_sign(action: &str, digest: &str) -> (r: String)
    ensures
        r@ == canonical_request(action@, digest@),
{
    let mut canonical =
        "POST\n/\n\ncontent-type:application/json; charset=utf-8\nhost:dnspod.tencentcloudapi.com\nx-tc-action:".to_owned();
    canonical.append(to_ascii_lowercase(action).as_str());
    canonical.append("\n\ncontent-type;host;x-tc-action\n");
    canonical.append(digest);
    canonical
}

/// What the signature is good for.
pub open spec fn credential_scope(date: Seq<char>) -> Seq<char> {
    date + "/dnspod/tc3_request"@
}

/// The text that is signed, `digest` being that of the request.
pub open spec fn string_to_sign(timestamp: int, date: Seq<char>, digest: Seq<char>) -> Seq<char> {
    "TC3-HMAC-SHA256\n"@ + date::padded(timestamp, 1) + "\n"@ + credential_scope(date) + "\n"@
        + digest
}

/// The text that is signed.
pub fn text_to_sign(timestamp: i64, date: &str, digest: &str) -> (r: String)
    ensures
        r@ == string_to_sign(timestamp as int, date@, digest@),
{
    let mut to_sign = "TC3-HMAC-SHA256\n".to_owned();
    to_sign.append(pad(timestamp, 1).as_str());
    to_sign.append("\n");
    to_sign.append(concat2(date, "/dnspod/tc3_request").as_str());
    to_sign.append("\n");
    to_sign.append(digest);
    to_sign
}

/// The key of a day, for this service and kind of request.
pub open spec fn signing_key(secret_key: Seq<char>, date: Seq<char>) -> Seq<u8> {
    hmac_of(
        hmac_of(hmac_of(bytes_of("TC3"@ + secret_key), bytes_of(date)), bytes_of("dnspod"@)),
        bytes_of("tc3_request"@),
    )
}

/// The header that tells a signature.
pub open spec fn signature_header(
    secret_id: Seq<char>,
    date: Seq<char>,
    signature: Seq<char>,
) -> Seq<char> {
    "TC3-HMAC-SHA256 Credential="@ + secret_id + "/"@ + credential_scope(date)
        + ", SignedHeaders=content-type;host;x-tc-action, Signature="@ + signature
}

/// The header that tells a signature.
pub fn header_of_signature(secret_id: &str, date: &str, signature: &str) -> (r: String)
    ensures
        r@ == signature_header(secret_id@, date@, signature@),
{
    let mut out = "TC3-HMAC-SHA256 Credential=".to_owned();
    out.append(secret_id);
    out.append("/");
    out.append(concat2(date, "/dnspod/tc3_request").as_str());
    out.append(", SignedHeaders=content-type;host;x-tc-action, Signature=");
    out.append(signature);
    out
}

/// The signature of a request, in hexadecimal digits.
pub open spec fn signature_text(
    secret_key: Seq<char>,
    action: Seq<char>,
    payload: Seq<char>,
    timestamp: int,
) -> Seq<char> {
    let date = date::date_text(date::date_of(timestamp / 86_400));
    let request = canonical_request(action, digest_text(payload));
    encode::hex_text(
        hmac_of(
            signing_key(secret_key, date),
            bytes_of(string_to_sign(timestamp, date, digest_text(request))),
        ),
    )
}

/// The header that signs a request.
pub open spec fn authorization(
    secret_id: Seq<char>,
    secret_key: Seq<char>,
    action: Seq<char>,
    payload: Seq<char>,
    timestamp: int,
) -> Seq<char> {
    signature_header(
        secret_id,
        date::date_text(date::date_of(timestamp / 86_400)),
        signature_text(secret_key, action, payload, timestamp),
    )
}

/// The header that signs a request.
pub fn tencentcloud_authorization(
    secret_id: &str,
    secret_key: &str,
    action: &str,
    payload: &str,
    timestamp: i64,
) -> (r: String)
    ensures
        r@ == authorization(secret_id@, secret_key@, action@, payload@, timestamp as int),
        signature_text(secret_key@, action@, payload@, timestamp as int).len() == 64,
{
    let date = tencentcloud_date(timestamp);
    let request = request_to_sign(action, sha256_hex(payload.as_bytes()).as_str());
    let digest = sha256_hex(request.as_str().as_bytes());
    let to_sign = text_to_sign(timestamp, date.as_str(), digest.as_str());
    let first = concat2("TC3", secret_key);
    let secret_date = hmac_sha256(first.as_str().as_bytes(), date.as_str().as_bytes());
    let secret_service = hmac_sha256(&secret_date, "dnspod".as_bytes());
    let secret_signing = hmac_sha256(&secret_service, "tc3_request".as_bytes());
    let signature = bytes_hex(&hmac_sha256(&secret_signing, to_sign.as_str().as_bytes()));
    header_of_signature(secret_id, date.as_str(), signature.as_str())
}

/// A JSON object of one text after the other: `items` are names and values that
/// are in JSON notation already.
pub open spec fn object_text(items: Seq<(Seq<char>, Seq<char>)>) -> Seq<char> {
    "{"@ + search::joined(
        items.map_values(|p: (Seq<char>, Seq<char>)| jsontext::json_quoted(p.0) + ":"@ + p.1),
        ","@,
    ) + "}"@
}

fn write_object(items: &Vec<(&'static str, String)>) -> (r: String)
    ensures
        r@ == object_text(
            items@.map_values(|p: (&'static str, String)| (p.0@, p.1@)),
        ),
{
    let mut parts: Vec<String> = Vec::new();
    let mut i: usize = 0;
    while i < items.len()
        invariant
            i <= items@.len(),
            i == parts@.len(),
            forall|k: int|
                0 <= k < i ==> (#[trigger] parts@[k])@ == jsontext::json_quoted(items@[k].0@) + ":"@
                    + items@[k].1@,
        decreases items@.len() - i,
    {
        let mut part = quote(items[i].0);
        part.append(":");
        part.append(items[i].1.as_str());
        parts.push(part);
        i += 1;
    }
    proof {
        assert(search::texts(parts@) =~= items@.map_values(
            |p: (&'static str, String)| (p.0@, p.1@),
        ).map_values(|p: (Seq<char>, Seq<char>)| jsontext::json_quoted(p.0) + ":"@ + p.1));
    }
    let mut out = "{".to_owned();
    out.append(join(&parts, ",").as_str());
    out.append("}");
    out
}

/// The body of the request that sets a record at Cloudflare.
pub open spec fn cloudflare_body(record_type: Seq<char>, domain: Seq<char>, ip: Seq<char>) -> Seq<
    char,
> {
    object_text(
        seq![
            ("content"@, jsontext::json_quoted(ip)),
            ("name"@, jsontext::json_quoted(domain)),
            ("ttl"@, "60"@),
            ("type"@, jsontext::json_quoted(record_type)),
        ],
    )
}

/// The body of the request that sets a record at Cloudflare.
pub fn cloudflare_payload(record_type: &str, domain: &str, ip: &str) -> (r: String)
    ensures
        r@ == cloudflare_body(record_type@, domain@, ip@),
{
    let mut items: Vec<(&'static str, String)> = Vec::new();
    items.push(("content", quote(ip)));
    items.push(("name", quote(domain)));
    items.push(("ttl", "60".to_owned()));
    items.push(("type", quote(record_type)));
    proof {
        assert(items@.map_values(|p: (&'static str, String)| (p.0@, p.1@)) =~= seq![
            ("content"@, jsontext::json_quoted(ip@)),
            ("name"@, jsontext::json_quoted(domain@)),
            ("ttl"@, "60"@),
            ("type"@, jsontext::json_quoted(record_type@)),
        ]);
    }
    write_object(&items)
}

/// The body of the request that asks for the records of a name.
pub open spec fn describe_body(
    domain: Seq<char>,
    sub_domain: Seq<char>,
    record_type: Seq<char>,
) -> Seq<char> {
    object_text(
        seq![
            ("Domain"@, jsontext::json_quoted(domain)),
            ("RecordType"@, jsontext::json_quoted(record_type)),
            ("Subdomain"@, jsontext::json_quoted(sub_domain)),
        ],
    )
}

/// The body of the request that asks for the records of a name.
pub fn describe_payload(domain: &str, sub_domain: &str, record_type: &str) -> (r: String)
    ensures
        r@ == describe_body(domain@, sub_domain@, record_type@),
{
    let mut items: Vec<(&'static str, String)> = Vec::new();
    items.push(("Domain", quote(domain)));
    items.push(("RecordType", quote(record_type)));
    items.push(("Subdomain", quote(sub_domain)));
    proof {
        assert(items@.map_values(|p: (&'static str, String)| (p.0@, p.1@)) =~= seq![
            ("Domain"@, jsontext::json_quoted(domain@)),
            ("RecordType"@, jsontext::json_quoted(record_type@)),
            ("Subdomain"@, jsontext::json_quoted(sub_domain@)),
        ]);
    }
    write_object(&items)
}

/// The body of the request that sets a record.
pub open spec fn modify_body(
    domain: Seq<char>,
    sub_domain: Seq<char>,
    record_type: Seq<char>,
    ip: Seq<char>,
    record_id: u64,
) -> Seq<char> {
    object_text(
        seq![
            ("Domain"@, jsontext::json_quoted(domain)),
            ("RecordId"@, decimal::decimal(record_id as nat)),
            ("RecordLine"@, jsontext::json_quoted("默认"@)),
            ("RecordType"@, jsontext::json_quoted(record_type)),
            ("SubDomain"@, jsontext::json_quoted(sub_domain)),
            ("Value"@, jsontext::json_quoted(ip)),
        ],
    )
}

/// The body of the request that sets a record.
pub fn modify_payload(
    domain: &str,
    sub_domain: &str,
    record_type: &str,
    ip: &str,
    record_id: u64,
) -> (r: String)
    ensures
        r@ == modify_body(domain@, sub_domain@, record_type@, ip@, record_id),
{
    let mut items: Vec<(&'static str, String)> = Vec::new();
    items.push(("Domain", quote(domain)));
    items.push(("RecordId", to_decimal(record_id)));
    items.push(("RecordLine", quote("默认")));
    items.push(("RecordType", quote(record_type)));
    items.push(("SubDomain", quote(sub_domain)));
    items.push(("Value", quote(ip)));
    proof {
        assert(items@.map_values(|p: (&'static str, String)| (p.0@, p.1@)) =~= seq![
            ("Domain"@, jsontext::json_quoted(domain@)),
            ("RecordId"@, decimal::decimal(record_id as nat)),
            ("RecordLine"@, jsontext::json_quoted("默认"@)),
            ("RecordType"@, jsontext::json_quoted(record_type@)),
            ("SubDomain"@, jsontext::json_quoted(sub_domain@)),
            ("Value"@, jsontext::json_quoted(ip@)),
        ]);
    }
    write_object(&items)
}

/// The first item of a list.
pub open spec fn first_item(j: Option<Json>) -> Option<Json> {
    match json::as_list(j) {
        Some(items) => if items.len() > 0 {
            Some(items[0])
        } else {
            None
        },
        None => None,
    }
}

/// The member of a value, where there is one.
pub open spec fn member_opt(j: Option<Json>, key: Seq<char>) -> Option<Json> {
    match j {
        Some(v) => json::member(v, key),
        None => None,
    }
}

fn first_of(j: Option<&Json>) -> (r: Option<&Json>)
    ensures
        r.is_some() == first_item(
            match j {
                Some(v) => Some(*v),
                None => None,
            },
        ).is_some(),
        r matches Some(v) ==> Some(*v) == first_item(
            match j {
                Some(v) => Some(*v),
                None => None,
            },
        ),
{
    match j {
        Some(Json::List(items)) => if items.len() > 0 {
            Some(&items[0])
        } else {
            None
        },
        _ => None,
    }
}

/// The `id` of the first entry of a reply's `result`.
pub open spec fn first_result_id(value: Json) -> Option<Seq<char>> {
    json::as_text(member_opt(first_item(json::member(value, "result"@)), "id"@))
}

/// The `id` of the first entry of a reply's `result`.
pub fn first_id(value: &Json) -> (r: Option<String>)
    ensures
        r.is_some() == first_result_id(*value).is_some(),
        r matches Some(s) ==> Some(s@) == first_result_id(*value),
{
    match first_of(value.get("result")) {
        Some(item) => match item.get("id") {
            Some(v) => match v.text() {
                Some(s) => Some(s.to_owned()),
                None => None,
            },
            None => None,
        },
        None => None,
    }
}

/// The `id` of the first entry in a reply of Cloudflare.
pub fn cloudflare_first_id(raw: &str) -> (r: Option<String>)
    ensures
        match jsontext::json_text(raw@) {
            None => r is None,
            Some(value) => r.is_some() == first_result_id(value).is_some() && (r matches Some(s)
                ==> Some(s@) == first_result_id(value)),
        },
{
    match parse_json(raw) {
        Some(value) => first_id(&value),
        None => None,
    }
}

/// What a reply of Tencent Cloud says of a record.
#[derive(Debug, Clone, Copy, PartialEq, Eq, Structural)]
pub enum TencentReply {
    Failed,
    NoRecord,
    Record(u64),
}

/// What a reply says of a record: the number of the first one, unless it tells
/// an error.
pub open spec fn reply_of(value: Json) -> TencentReply {
    let response = json::member(value, "Response"@);
    if member_opt(response, "Error"@) is Some {
        TencentReply::Failed
    } else {
        match json::as_u64(member_opt(first_item(member_opt(response, "RecordList"@)), "RecordId"@)) {
            Some(id) => TencentReply::Record(id),
            None => TencentReply::NoRecord,
        }
    }
}

/// What a reply says of a record.
pub fn tencentcloud_reply(value: &Json) -> (r: TencentReply)
    ensures
        r == reply_of(*value),
{
    match value.get("Response") {
        None => TencentReply::NoRecord,
        Some(response) => {
            match response.get("Error") {
                Some(_) => {
                    return TencentReply::Failed;
                },
                None => {},
            }
            match first_of(response.get("RecordList")) {
                None => TencentReply::NoRecord,
                Some(item) => match item.get("RecordId") {
                    None => TencentReply::NoRecord,
                    Some(v) => match v.unsigned() {
                        Some(id) => TencentReply::Record(id),
                        None => TencentReply::NoRecord,
                    },
                },
            }
        },
    }
}

/// The name of the part of a domain before its zone.
pub open spec fn named_part(sub_domain: Seq<char>) -> Seq<char> {
    if sub_domain.len() == 0 {
        "@"@
    } else {
        sub_domain
    }
}

/// The name of the part of a domain before its zone, where it may be the zone
/// itself.
pub fn record_name(sub_domain: &str) -> (r: String)
    ensures
        r@ == named_part(sub_domain@),
{
    if sub_domain.is_empty() {
        "@".to_owned()
    } else {
        sub_domain.to_owned()
    }
}

/// The address that sets a record at Hurricane Electric.
pub open spec fn he_url(domain: Seq<char>, access_secret: Seq<char>, ip: Seq<char>) -> Seq<char> {
    "https://dyn.dns.he.net/nic/update?hostname="@ + encode::percent_text(bytes_of(domain), false)
        + "&password="@ + encode::percent_text(bytes_of(access_secret), false) + "&myip="@
        + encode::percent_text(bytes_of(ip), false)
}

/// The address that sets a record at Hurricane Electric.
pub fn he_update_url(domain: &str, access_secret: &str, ip: &str) -> (r: String)
    ensures
        r@ == he_url(domain@, access_secret@, ip@),
{
    let mut url = "https://dyn.dns.he.net/nic/update?hostname=".to_owned();
    url.append(percent_encode(domain).as_str());
    url.append("&password=");
    url.append(percent_encode(access_secret).as_str());
    url.append("&myip=");
    url.append(percent_encode(ip).as_str());
    url
}

/// The address of a zone at Cloudflare.
pub fn cloudflare_zone_url(zone: &str) -> (r: String)
    ensures
        r@ == "https://api.cloudflare.com/client/v4/zones?name="@ + zone@,
{
    concat2("https://api.cloudflare.com/client/v4/zones?name=", zone)
}

/// The address of the records of a name at Cloudflare.
pub open spec fn records_url(zone_id: Seq<char>, record_type: Seq<char>, domain: Seq<char>) -> Seq<
    char,
> {
    "https://api.cloudflare.com/client/v4/zones/"@ + zone_id + "/dns_records?type="@ + record_type
        + "&name="@ + domain
}

/// The address of the records of a name at Cloudflare.
pub fn cloudflare_records_url(zone_id: &str, record_type: &str, domain: &str) -> (r: String)
    ensures
        r@ == records_url(zone_id@, record_type@, domain@),
{
    let mut url = concat2("https://api.cloudflare.com/client/v4/zones/", zone_id);
    url.append("/dns_records?type=");
    url.append(record_type);
    url.append("&name=");
    url.append(domain);
    url
}

/// The address of a record at Cloudflare.
pub open spec fn record_url(zone_id: Seq<char>, record_id: Seq<char>) -> Seq<char> {
    "https://api.cloudflare.com/client/v4/zones/"@ + zone_id + "/dns_records/"@ + record_id
}

/// The address of a record at Cloudflare.
pub fn cloudflare_record_url(zone_id: &str, record_id: &str) -> (r: String)
    ensures
        r@ == record_url(zone_id@, record_id@),
{
    let mut url = concat2("https://api.cloudflare.com/client/v4/zones/", zone_id);
    url.append("/dns_records/");
    url.append(record_id);
    url
}

/// A request is signed under a key that the secret, the day, the service and the kind of
/// request make, one after the other; what is signed is the time, the day and the digest
/// of the request, which holds the digest of the body. The header tells who signed, for
/// what, and the signature.
pub proof fn requests_are_signed_for_their_day(
    secret_id: Seq<char>,
    secret_key: Seq<char>,
    action: Seq<char>,
    payload: Seq<char>,
    timestamp: int,
)
    ensures
        ({
            let utf8 = |s: Seq<char>| vstd::utf8::encode_utf8(s);
            let date = date::date_text(date::date_of(timestamp / 86_400));
            let scope = date + "/dnspod/tc3_request"@;
            let of_day = hmac_of(utf8("TC3"@ + secret_key), utf8(date));
            let of_service = hmac_of(of_day, utf8("dnspod"@));
            let key = hmac_of(of_service, utf8("tc3_request"@));
            let body = encode::hex_text(sha256(utf8(payload)));
            let request =
                "POST\n/\n\ncontent-type:application/json; charset=utf-8\nhost:dnspod.tencentcloudapi.com\nx-tc-action:"@
                + text::lowered(action) + "\n\ncontent-type;host;x-tc-action\n"@ + body;
            let signed = "TC3-HMAC-SHA256\n"@ + date::padded(timestamp, 1) + "\n"@ + scope + "\n"@
                + encode::hex_text(sha256(utf8(request)));
            let signature = encode::hex_text(hmac_of(key, utf8(signed)));
            &&& signature_text(secret_key, action, payload, timestamp) == signature
            &&& authorization(secret_id, secret_key, action, payload, timestamp)
                == "TC3-HMAC-SHA256 Credential="@ + secret_id + "/"@ + scope
                + ", SignedHeaders=content-type;host;x-tc-action, Signature="@ + signature
        }),
{
}

/// Requests of one day are signed under one key; another secret, and another day, make
/// the key from something else.
pub proof fn keys_hold_for_a_day(secret_key: Seq<char>, day: int, a: int, b: int)
    requires
        0 <= a < 24 * 60 * 60,
        0 <= b < 24 * 60 * 60,
    ensures
        ({
            let first = day * (24 * 60 * 60) + a;
            let second = day * (24 * 60 * 60) + b;
            signing_key(secret_key, date::date_text(date::date_of(first / 86_400))) == signing_key(
                secret_key,
                date::date_text(date::date_of(second / 86_400)),
            )
        }),
{
    assert((day * 86_400 + a) / 86_400 == day);
    assert((day * 86_400 + b) / 86_400 == day);
}

proof fn lemma_four(a: Seq<char>, b: Seq<char>, c: Seq<char>, d: Seq<char>, sep: Seq<char>)
    ensures
        search::joined(seq![a, b, c, d], sep) == a + sep + b + sep + c + sep + d,
        search::joined(seq![a, b, c], sep) == a + sep + b + sep + c,
        search::joined(seq![a, b], sep) == a + sep + b,
{
    let four = seq![a, b, c, d];
    let three = seq![a, b, c];
    let two = seq![a, b];
    assert(four.drop_last() =~= three);
    assert(three.drop_last() =~= two);
    assert(two.drop_last() =~= seq![a]);
    assert(search::joined(seq![a], sep) == a);
    assert(search::joined(two, sep) == a + sep + b);
    assert(search::joined(three, sep) == search::joined(two, sep) + sep + c);
    assert(search::joined(four, sep) == search::joined(three, sep) + sep + d);
}

/// The body for Cloudflare tells the address as content, the domain as name, sixty seconds
/// to live and the type of record.
pub proof fn cloudflare_is_told_the_record(
    record_type: Seq<char>,
    domain: Seq<char>,
    ip: Seq<char>,
)
    ensures
        ({
            let q = |s: Seq<char>| jsontext::json_quoted(s);
            cloudflare_body(record_type, domain, ip) == "{"@ + (q("content"@) + ":"@ + q(ip)) + ","@
                + (q("name"@) + ":"@ + q(domain)) + ","@ + (q("ttl"@) + ":"@ + "60"@) + ","@ + (q(
                "type"@,
            ) + ":"@ + q(record_type)) + "}"@
        }),
{
    let q = |s: Seq<char>| jsontext::json_quoted(s);
    let a = q("content"@) + ":"@ + q(ip);
    let b = q("name"@) + ":"@ + q(domain);
    let c = q("ttl"@) + ":"@ + "60"@;
    let d = q("type"@) + ":"@ + q(record_type);
    let items = seq![
        ("content"@, q(ip)),
        ("name"@, q(domain)),
        ("ttl"@, "60"@),
        ("type"@, q(record_type)),
    ];
    assert(items.map_values(|p: (Seq<char>, Seq<char>)| jsontext::json_quoted(p.0) + ":"@ + p.1)
        =~= seq![a, b, c, d]);
    lemma_four(a, b, c, d, ","@);
    assert(cloudflare_body(record_type, domain, ip) =~= "{"@ + a + ","@ + b + ","@ + c + ","@ + d
        + "}"@);
}

/// The bodies for Tencent Cloud tell the zone, the name in it and the type of record; the
/// one that sets a record tells its number and the address besides.
pub proof fn tencentcloud_is_told_the_record(
    domain: Seq<char>,
    sub_domain: Seq<char>,
    record_type: Seq<char>,
    ip: Seq<char>,
    record_id: u64,
)
    ensures
        ({
            let q = |s: Seq<char>| jsontext::json_quoted(s);
            let zone = q("Domain"@) + ":"@ + q(domain);
            let number = q("RecordId"@) + ":"@ + decimal::decimal(record_id as nat);
            let line = q("RecordLine"@) + ":"@ + q("默认"@);
            let kind = q("RecordType"@) + ":"@ + q(record_type);
            let asked = q("Subdomain"@) + ":"@ + q(sub_domain);
            let set = q("SubDomain"@) + ":"@ + q(sub_domain);
            let value = q("Value"@) + ":"@ + q(ip);
            &&& describe_body(domain, sub_domain, record_type) == "{"@ + zone + ","@ + kind + ","@
                + asked + "}"@
            &&& modify_body(domain, sub_domain, record_type, ip, record_id) == "{"@ + zone + ","@
                + number + ","@ + line + ","@ + kind + ","@ + set + ","@ + value + "}"@
        }),
{
    let q = |s: Seq<char>| jsontext::json_quoted(s);
    let zone = q("Domain"@) + ":"@ + q(domain);
    let number = q("RecordId"@) + ":"@ + decimal::decimal(record_id as nat);
    let line = q("RecordLine"@) + ":"@ + q("默认"@);
    let kind = q("RecordType"@) + ":"@ + q(record_type);
    let asked = q("Subdomain"@) + ":"@ + q(sub_domain);
    let set = q("SubDomain"@) + ":"@ + q(sub_domain);
    let value = q("Value"@) + ":"@ + q(ip);
    let first = seq![
        ("Domain"@, q(domain)),
        ("RecordType"@, q(record_type)),
        ("Subdomain"@, q(sub_domain)),
    ];
    assert(first.map_values(|p: (Seq<char>, Seq<char>)| jsontext::json_quoted(p.0) + ":"@ + p.1)
        =~= seq![zone, kind, asked]);
    lemma_four(zone, kind, asked, seq![], ","@);
    assert(describe_body(domain, sub_domain, record_type) =~= "{"@ + zone + ","@ + kind + ","@
        + asked + "}"@);
    let second = seq![
        ("Domain"@, q(domain)),
        ("RecordId"@, decimal::decimal(record_id as nat)),
        ("RecordLine"@, q("默认"@)),
        ("RecordType"@, q(record_type)),
        ("SubDomain"@, q(sub_domain)),
        ("Value"@, q(ip)),
    ];
    let parts = seq![zone, number, line, kind, set, value];
    assert(second.map_values(|p: (Seq<char>, Seq<char>)| jsontext::json_quoted(p.0) + ":"@ + p.1)
        =~= parts);
    lemma_four(zone, number, line, kind, ","@);
    let four = seq![zone, number, line, kind];
    assert(parts.drop_last().drop_last() =~= four);
    assert(search::joined(parts.drop_last(), ","@) == search::joined(four, ","@) + ","@ + set);
    assert(search::joined(parts, ","@) == search::joined(parts.drop_last(), ","@) + ","@ + value);
    assert(modify_body(domain, sub_domain, record_type, ip, record_id) =~= "{"@ + zone + ","@
        + number + ","@ + line + ","@ + kind + ","@ + set + ","@ + value + "}"@);
}

/// Hurricane Electric is told the domain as the host's name, the secret as the password
/// and the address, each escaped.
pub proof fn hurricane_electric_is_told_the_address(
    domain: Seq<char>,
    access_secret: Seq<char>,
    ip: Seq<char>,
)
    ensures
        ({
            let escaped = |s: Seq<char>| encode::percent_text(vstd::utf8::encode_utf8(s), false);
            he_url(domain, access_secret, ip) == "https://dyn.dns.he.net/nic/update?"@
                + search::joined(
                seq![
                    "hostname="@ + escaped(domain),
                    "password="@ + escaped(access_secret),
                    "myip="@ + escaped(ip),
                ],
                "&"@,
            )
        }),
{
    let escaped = |s: Seq<char>| encode::percent_text(vstd::utf8::encode_utf8(s), false);
    let a = "hostname="@ + escaped(domain);
    let b = "password="@ + escaped(access_secret);
    let c = "myip="@ + escaped(ip);
    lemma_four(a, b, c, seq![], "&"@);
    reveal_strlit("https://dyn.dns.he.net/nic/update?hostname=");
    reveal_strlit("https://dyn.dns.he.net/nic/update?");
    reveal_strlit("hostname=");
    reveal_strlit("&password=");
    reveal_strlit("password=");
    reveal_strlit("&myip=");
    reveal_strlit("myip=");
    reveal_strlit("&");
    assert("https://dyn.dns.he.net/nic/update?"@ + "hostname="@
        =~= "https://dyn.dns.he.net/nic/update?hostname="@);
    assert("&"@ + "password="@ =~= "&password="@);
    assert("&"@ + "myip="@ =~= "&myip="@);
    assert(he_url(domain, access_secret, ip) =~= "https://dyn.dns.he.net/nic/update?"@ + (a + "&"@
        + b + "&"@ + c));
}

/// The records of a zone stand below the zone, and each record below them; they are asked
/// for by type and name.
pub proof fn records_stand_below_their_zone(
    zone_id: Seq<char>,
    record_id: Seq<char>,
    record_type: Seq<char>,
    domain: Seq<char>,
)
    ensures
        ({
            let below = "https://api.cloudflare.com/client/v4/zones/"@ + zone_id + "/dns_records"@;
            &&& record_url(zone_id, record_id) == below + "/"@ + record_id
            &&& records_url(zone_id, record_type, domain) == below + "?type="@ + record_type
                + "&name="@ + domain
            &&& named_part(domain) == domain || domain.len() == 0
            &&& named_part(seq![]) == "@"@
        }),
{
    let below = "https://api.cloudflare.com/client/v4/zones/"@ + zone_id + "/dns_records"@;
    reveal_strlit("/dns_records");
    reveal_strlit("/dns_records/");
    reveal_strlit("/");
    reveal_strlit("/dns_records?type=");
    reveal_strlit("?type=");
    assert("/dns_records"@ + "/"@ =~= "/dns_records/"@);
    assert("/dns_records"@ + "?type="@ =~= "/dns_records?type="@);
    assert(record_url(zone_id, record_id) =~= below + "/"@ + record_id);
    assert(records_url(zone_id, record_type, domain) =~= below + "?type="@ + record_type
        + "&name="@ + domain);
}

/// A reply of Cloudflare tells the `id` of its first result; one without a result, or
/// whose first result has no such text, tells none.
pub proof fn first_results_are_told(value: Json, items: Vec<Json>, id: String)
    requires
        json::member(value, "result"@) == Some(Json::List(items)),
    ensures
        items@.len() == 0 ==> first_result_id(value) is None,
        items@.len() > 0 && json::member(items@[0], "id"@) == Some(Json::Text(id))
            ==> first_result_id(value) == Some(id@),
        items@.len() > 0 && json::member(items@[0], "id"@) is None ==> first_result_id(value)
            is None,
{
}

/// A reply of Tencent Cloud that tells an error has failed, whatever else it tells; else it
/// tells the number of its first record, or that there is none.
pub proof fn replies_tell_the_first_record(
    value: Json,
    response: Json,
    items: Vec<Json>,
    id: u64,
    error: Json,
)
    requires
        json::member(value, "Response"@) == Some(response),
    ensures
        json::member(response, "Error"@) == Some(error) ==> reply_of(value) == TencentReply::Failed,
        json::member(response, "Error"@) is None && json::member(response, "RecordList"@) == Some(
            Json::List(items),
        ) && items@.len() > 0 && json::member(items@[0], "RecordId"@) == Some(Json::Unsigned(id))
            ==> reply_of(value) == TencentReply::Record(id),
        json::member(response, "Error"@) is None && json::member(response, "RecordList"@) == Some(
            Json::List(items),
        ) && items@.len() == 0 ==> reply_of(value) == TencentReply::NoRecord,
        json::member(response, "Error"@) is None && json::member(response, "RecordList"@) is None
            ==> reply_of(value) == TencentReply::NoRecord,
{
}

} // verus!
