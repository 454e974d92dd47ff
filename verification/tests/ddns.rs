use nezha_dashboard::date::{civil_from_days, tencentcloud_date};
use nezha_dashboard::ddns::{webhook_body, webhook_headers, DdnsBody};
use nezha_dashboard::dns::{
    build_soa_query, dns_server_list, domain_labels, relative_name, response_has_soa,
    query_id, skip_dns_name, soa_candidates, soa_query, DnsError,
};
use nezha_dashboard::signing::{
    cloudflare_first_id, he_update_url, sha256_hex, tencentcloud_authorization,
};

fn webhook_body_fixture() -> DdnsBody {
    DdnsBody {
        enable_ipv4: true,
        enable_ipv6: true,
        max_retries: 3,
        access_id: "id".into(),
        access_secret: "secret".into(),
        webhook_url: "https://example.com".into(),
        webhook_method: 2,
        webhook_request_type: 2,
        webhook_request_body: r##"{"value":"#ip#","#domain":"#domain#","#kind":"#type#","#record":"#record#","#secret":"#access_secret#"}"##.into(),
        webhook_headers: r##"{"X-Token":"#access_id#:#access_secret#"}"##.into(),
    }
}

fn labels(items: &[&str]) -> Vec<String> {
    items.iter().map(|s| s.to_string()).collect()
}

#[test]
fn webhook_templates_match_upstream_placeholders() {
    let body = webhook_body_fixture();

    let rendered = webhook_body(&body, "node.example.com", "A", "203.0.113.1").unwrap();
    assert!(rendered.contains("value=203.0.113.1"));
    assert!(rendered.contains("%23domain=node.example.com"));
    assert!(rendered.contains("%23kind=ipv4"));
    assert!(rendered.contains("%23record=A"));
    assert!(rendered.contains("%23secret=secret"));
    let headers: Vec<(String, String)> = vec![("X-Token".into(), "id:secret".into())];
    assert_eq!(webhook_headers(&body, "node.example.com", "AAAA", "2001:db8::1").unwrap(), headers);
}

#[test]
fn webhook_json_bodies_are_escaped() {
    let mut body = webhook_body_fixture();
    body.webhook_request_type = 1;
    body.webhook_request_body = r##"{"ip":"#ip#"}"##.into();
    assert_eq!(
        webhook_body(&body, "node.example.com", "A", "203.0.113.1").unwrap(),
        r#"{"ip":"203.0.113.1"}"#
    );
}

#[test]
fn cloudflare_helpers_extract_ids() {
    assert_eq!(cloudflare_first_id(r#"{"result":[{"id":"abc"}]}"#), Some("abc".into()));
    assert_eq!(cloudflare_first_id(r#"{"result":[]}"#), None);
    assert_eq!(cloudflare_first_id("no json"), None);
}

#[test]
fn tencentcloud_helpers_shape_domain_and_signature() {
    assert_eq!(
        soa_candidates(&labels(&["node", "example", "co", "uk"])),
        vec!["node.example.co.uk", "example.co.uk", "co.uk", "uk"]
    );
    assert_eq!(relative_name("node.example.co.uk", "example.co.uk"), "node");
    assert_eq!(relative_name("example.co.uk", "example.co.uk"), "");
    assert_eq!(
        dns_server_list("1.1.1.1:53, 8.8.8.8:53"),
        vec!["1.1.1.1:53".to_string(), "8.8.8.8:53".to_string()]
    );
    assert_eq!(tencentcloud_date(1_700_000_000), "2023-11-14");
    let auth = tencentcloud_authorization(
        "id",
        "secret",
        "DescribeRecordList",
        r#"{"Domain":"example.com"}"#,
        1_700_000_000,
    );
    assert!(auth.starts_with("TC3-HMAC-SHA256 Credential=id/2023-11-14/dnspod/tc3_request"));
    assert!(auth.contains("SignedHeaders=content-type;host;x-tc-action"));
    let signature = auth.split("Signature=").nth(1).unwrap();
    assert_eq!(signature.len(), 64);
    let other = tencentcloud_authorization(
        "id",
        "other secret",
        "DescribeRecordList",
        r#"{"Domain":"example.com"}"#,
        1_700_000_000,
    );
    assert_ne!(auth, other);
}

#[test]
fn digests_are_those_of_sha_256() {
    assert_eq!(
        sha256_hex(b"abc"),
        "ba7816bf8f01cfea414140de5dae2223b00361a396177a9cb410ff61f20015ad"
    );
}

#[test]
fn dates_are_those_of_the_calendar() {
    assert_eq!(tencentcloud_date(0), "1970-01-01");
    assert_eq!(tencentcloud_date(951_782_400), "2000-02-29");
    assert_eq!(tencentcloud_date(4_107_542_400), "2100-03-01");
    assert_eq!(tencentcloud_date(-1), "1969-12-31");
    assert_eq!(civil_from_days(0), "1970-01-01");
    assert_eq!(civil_from_days(-719_528), "0000-01-01");
    assert_eq!(civil_from_days(2_932_896), "9999-12-31");
    for day in [-719_528, -1, 0, 58, 59, 11_015, 11_016, 47_540] {
        assert!(civil_from_days(day) < civil_from_days(day + 1));
    }
}

#[test]
fn names_that_are_asked_for_are_skipped() {
    let query = soa_query("example.com", 0x1234).unwrap();
    assert_eq!(query[0], 0x12);
    assert_eq!(query[1], 0x34);
    assert_eq!(skip_dns_name(&query, 12), Ok(query.len() - 4));
    assert_eq!(response_has_soa(&query), Ok(false));
    assert!(build_soa_query("example.com").is_ok());
    assert_eq!(query_id(0), 0);
    assert_eq!(query_id(65_537), 31);
    assert_eq!(query_id(-1), 65_505);
}

#[test]
fn bad_names_are_refused() {
    assert!(domain_labels("").is_err());
    let long = "a".repeat(64);
    assert!(soa_query(&long, 1).is_err());
    assert!(matches!(skip_dns_name(&[5, b'a'], 0), Err(_)));
    let e: DnsError = domain_labels("").unwrap_err();
    assert!(!e.message().is_empty());
}

#[test]
fn hurricane_electric_is_asked_by_address() {
    let url = he_update_url("node.example.com", "se cret", "203.0.113.1");
    assert!(url.contains("node.example.com"));
    assert!(!url.contains(' '));
}
