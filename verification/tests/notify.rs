use nezha_dashboard::ip::{
    addresses_allowed, binary_to_ip, desensitize_ip, ip_source, ip_text_from_header, ip_to_binary,
    IpBits, IpSource,
};
use nezha_dashboard::jsontext::json_string_map;
use nezha_dashboard::model::NotificationResource;
use nezha_dashboard::notification::{
    body_type, ensure_allowed_notification_ip, expand_placeholders, notification_target, parse_url,
    record_dead_letters,
    render_template_at, render_template_json_string, render_template_plain, render_template_url,
    request_body, request_body_at, request_headers, request_method, retry_delay, scheme_allowed,
    NotificationError, Notation, ServerTemplateContext, Target, Volume,
};

fn notification(request_method: u8, request_type: u8, request_body: &str) -> NotificationResource {
    NotificationResource {
        id: 1,
        user_id: 1,
        name: "test".into(),
        url: "https://example.com".into(),
        request_method,
        request_type,
        request_header: String::new(),
        request_body: request_body.into(),
        verify_tls: Some(true),
        format_metric_units: Some(false),
        skip_check: None,
        created_at: 0,
        updated_at: 0,
    }
}

#[test]
fn replaces_message_for_url_json_and_form_contexts() {
    assert_eq!(
        render_template_url("https://example.com/?text=#NEZHA#", "hello world", None, false)
            .unwrap()
            .as_str(),
        "https://example.com/?text=hello%20world"
    );
    assert_eq!(
        render_template_json_string(r##"{"text":"#NEZHA#"}"##, "hello\nworld", None, false),
        r#"{"text":"hello\nworld"}"#
    );
    assert_eq!(
        render_template_plain("msg=#NEZHA#", "hello world", None, false),
        "msg=hello world"
    );
}

#[test]
fn server_placeholders_are_rendered_and_metric_units_can_format() {
    let context = ServerTemplateContext {
        name: "edge-1".into(),
        ip: "198.51.100.10/2001:db8::10".into(),
        ipv4: "198.51.100.10".into(),
        ipv6: "2001:db8::10".into(),
        cpu: "12.35".into(),
        mem: "50.00".into(),
        swap: "0.00".into(),
        disk: "75.00".into(),
        transfer_in: Volume { bytes: 1024, in_units: "1.00 KB".into() },
        transfer_out: Volume { bytes: 1536, in_units: "1.50 KB".into() },
        net_in_speed: Volume { bytes: 2048, in_units: "2.00 KB".into() },
        net_out_speed: Volume { bytes: 4096, in_units: "4.00 KB".into() },
        load1: "0.50".into(),
        load5: "0.25".into(),
        load15: "0.12".into(),
    };
    let template =
        "#SERVER.NAME# #SERVER.CPU# #SERVER.MEM# #SERVER.TRANSFERIN# #SERVER.NETOUTSPEED# #SERVER.LOAD15#";
    let rendered = render_template_plain(template, "", Some(&context), true);
    assert_eq!(rendered, "edge-1 12.35% 50.00% 1.00 KB 4.00 KB/s 0.12");
    assert!(!rendered.contains("#SERVER."));
    assert_eq!(
        render_template_plain(template, "", Some(&context), false),
        "edge-1 12.35 50.00 1024 4096 0.12"
    );
}

#[test]
fn rejects_internal_notification_targets() {
    let inner = [
        IpBits::V4([127, 0, 0, 1]),
        IpBits::V4([10, 0, 0, 1]),
        IpBits::V4([172, 16, 0, 1]),
        IpBits::V4([192, 168, 1, 1]),
        IpBits::V4([169, 254, 1, 1]),
        IpBits::V4([203, 0, 113, 10]),
        IpBits::V6([0, 0, 0, 0, 0, 0, 0, 1]),
        IpBits::V6([0xfc00, 0, 0, 0, 0, 0, 0, 1]),
        IpBits::V6([0xfe80, 0, 0, 0, 0, 0, 0, 1]),
        IpBits::V6([0x2001, 0xdb8, 0, 0, 0, 0, 0, 1]),
    ];
    for ip in inner {
        assert_eq!(
            ensure_allowed_notification_ip(ip),
            Err(NotificationError::TargetNotAllowed)
        );
    }
    assert!(ensure_allowed_notification_ip(IpBits::V4([1, 1, 1, 1])).is_ok());
    let cloudflare = IpBits::V6([0x2606, 0x4700, 0x4700, 0, 0, 0, 0, 0x1111]);
    assert!(ensure_allowed_notification_ip(cloudflare).is_ok());
    assert!(addresses_allowed(&[IpBits::V4([1, 1, 1, 1])]));
    assert!(!addresses_allowed(&[IpBits::V4([1, 1, 1, 1]), IpBits::V4([10, 0, 0, 1])]));
    assert!(!addresses_allowed(&[]));
}

#[test]
fn blocks_of_addresses_end_where_they_end() {
    assert!(ensure_allowed_notification_ip(IpBits::V4([11, 0, 0, 0])).is_ok());
    assert!(ensure_allowed_notification_ip(IpBits::V4([172, 32, 0, 0])).is_ok());
    assert!(ensure_allowed_notification_ip(IpBits::V4([172, 31, 255, 255])).is_err());
    assert!(ensure_allowed_notification_ip(IpBits::V4([100, 127, 0, 1])).is_err());
    assert!(ensure_allowed_notification_ip(IpBits::V4([100, 128, 0, 1])).is_ok());
    assert!(ensure_allowed_notification_ip(IpBits::V4([198, 19, 0, 1])).is_err());
    assert!(ensure_allowed_notification_ip(IpBits::V4([223, 255, 255, 255])).is_ok());
    assert!(ensure_allowed_notification_ip(IpBits::V4([224, 0, 0, 0])).is_err());
    let mapped = IpBits::V6([0, 0, 0, 0, 0, 0xffff, 0x0101, 0x0101]);
    assert!(ensure_allowed_notification_ip(mapped).is_err());
    assert!(ensure_allowed_notification_ip(IpBits::V6([0x2001, 2, 0, 0, 0, 0, 0, 1])).is_ok());
    assert!(ensure_allowed_notification_ip(IpBits::V6([0x2001, 1, 0, 0, 0, 0, 0, 1])).is_err());
    assert!(ensure_allowed_notification_ip(IpBits::V6([0xfec0, 0, 0, 0, 0, 0, 0, 1])).is_ok());
}

#[test]
fn form_body_is_urlencoded_from_json_object() {
    let notification = notification(2, 2, r##"{"text":"#NEZHA#"}"##);
    assert_eq!(
        request_body(&notification, "hello world", None).unwrap(),
        Some("text=hello%20world".to_string())
    );
}

#[test]
fn bodies_are_sent_where_there_is_one() {
    assert_eq!(request_body(&notification(1, 1, "{}"), "m", None), Ok(None));
    assert_eq!(request_body(&notification(2, 1, "{}"), "", None), Ok(None));
    assert_eq!(
        request_body(&notification(2, 1, r##"{"t":"#NEZHA#"}"##), "a\"b", None),
        Ok(Some(r#"{"t":"a\"b"}"#.to_string()))
    );
    assert_eq!(
        request_body(&notification(2, 3, "{}"), "m", None),
        Err(NotificationError::UnsupportedType)
    );
    assert_eq!(
        request_body(&notification(2, 2, "nothing"), "m", None),
        Err(NotificationError::NotJson)
    );
    assert_eq!(
        request_body(&notification(2, 2, "[]"), "m", None),
        Err(NotificationError::NotObject)
    );
    assert_eq!(
        request_body_at(&notification(2, 1, "#DATETIME#"), "m", "now", None),
        Ok(Some("now".to_string()))
    );
    assert_eq!(body_type(2), "application/x-www-form-urlencoded");
    assert_eq!(body_type(1), "application/json");
    assert!(request_method(1).is_ok());
    assert!(request_method(2).is_ok());
    assert_eq!(request_method(3).unwrap_err().message(), "unsupported request method");
    assert!(scheme_allowed("https").is_ok());
    assert!(scheme_allowed("ftp").is_err());
}

#[test]
fn nested_placeholder_expansion_resolves_recursively() {
    let context = [
        ("#NEZHA#", "msg=#DATETIME#".to_string()),
        ("#DATETIME#", "2026-05-25T00:00:00Z".to_string()),
    ];
    assert_eq!(
        expand_placeholders("hello #NEZHA#", &context),
        "hello msg=2026-05-25T00:00:00Z"
    );
}

#[test]
fn placeholder_expansion_terminates_on_self_reference() {
    let context = [("#NEZHA#", "#NEZHA#".to_string())];
    let result = expand_placeholders("v=#NEZHA#", &context);
    assert!(result.contains("#NEZHA#"));
    let growing = [("#A#", "x#A#".to_string())];
    assert_eq!(expand_placeholders("#A#", &growing), "xxxxxxxx#A#");
    assert_eq!(expand_placeholders("nothing", &growing), "nothing");
}

#[test]
fn header_values_are_template_rendered() {
    let raw_headers = r##"{"X-Trace":"req=#NEZHA#"}"##;
    let value = render_template_plain("req=#NEZHA#", "abc", None, false);
    assert_eq!(value, "req=abc");
    let map = json_string_map(raw_headers).unwrap();
    assert_eq!(map.len(), 1);
    assert_eq!(map[0].0, "X-Trace");
    assert_eq!(map[0].1, "req=#NEZHA#");

    let mut with_headers = notification(2, 1, "{}");
    assert_eq!(request_headers(&with_headers, "abc", None), Ok(vec![]));
    with_headers.request_header = raw_headers.to_string();
    assert_eq!(
        request_headers(&with_headers, "abc", None),
        Ok(vec![("X-Trace".to_string(), "req=abc".to_string())])
    );
}

#[test]
fn times_are_written_where_they_are_asked_for() {
    let now = render_template_plain("#DATETIME#", "", None, false);
    assert!(now.contains('T'));
    assert!(now.ends_with("+00:00"));
    assert_eq!(
        render_template_at("#DATETIME#", "", "a b", None, false, Notation::Address),
        "a%20b"
    );
}

#[test]
fn notifications_are_tried_three_times() {
    assert_eq!(retry_delay(0), Some(1000));
    assert_eq!(retry_delay(1), Some(2000));
    assert_eq!(retry_delay(2), None);
    let letters = record_dead_letters(
        "message",
        &[(1, Ok(())), (2, Err("refused".to_string())), (3, Ok(()))],
    );
    assert_eq!(letters.len(), 1);
    assert_eq!(letters[0].notification_id, 2);
    assert_eq!(letters[0].message, "message");
    assert_eq!(letters[0].error, "refused");
    assert_eq!(letters[0].attempts, 3);
}

#[test]
fn online_user_helpers_mask_ips() {
    assert_eq!(desensitize_ip(Some(IpBits::V4([203, 0, 113, 10]))), "203.0.113.*");
    assert_eq!(
        desensitize_ip(Some(IpBits::V6([0x2001, 0xdb8, 0, 0, 0, 0, 0, 1]))),
        "2001:db8:0:0:****:****:****:****"
    );
    assert_eq!(desensitize_ip(None), "");
}

#[test]
fn stored_addresses_read_back() {
    let v4 = ip_to_binary(IpBits::V4([203, 0, 113, 7]));
    assert_eq!(v4, vec![0, 0, 0, 0, 0, 0, 0, 0, 0, 0, 255, 255, 203, 0, 113, 7]);
    assert!(matches!(binary_to_ip(&v4), Some(IpBits::V4([203, 0, 113, 7]))));
    let v6 = ip_to_binary(IpBits::V6([0x2001, 0xdb8, 0, 0, 0, 0, 0, 1]));
    assert!(matches!(
        binary_to_ip(&v6),
        Some(IpBits::V6([0x2001, 0xdb8, 0, 0, 0, 0, 0, 1]))
    ));
    assert!(binary_to_ip(&[1, 2, 3]).is_none());
}

#[test]
fn the_last_address_of_a_header_counts() {
    assert_eq!(
        ip_text_from_header("198.51.100.1, 203.0.113.10"),
        Some("203.0.113.10".to_string())
    );
    assert_eq!(ip_text_from_header("198.51.100.1, "), None);
    assert_eq!(ip_source(""), IpSource::Proxies);
    assert_eq!(ip_source("NZ::Use-Peer-IP"), IpSource::Proxies);
    assert_eq!(ip_source("X-Real-IP"), IpSource::Named);
}

#[test]
fn notifications_go_to_web_addresses_only() {
    let url = parse_url("HTTPS://Example.COM/a b").unwrap();
    assert_eq!(url.scheme, "https");
    assert_eq!(url.host, Some("example.com".to_string()));
    assert_eq!(url.port, Some(443));
    assert_eq!(url.as_str(), "https://example.com/a%20b");
    match notification_target(&url, None).unwrap() {
        Target::Name { host, port } => {
            assert_eq!(host, "example.com");
            assert_eq!(port, 443);
        }
        Target::Address => panic!("it is a name"),
    }
    let open = parse_url("http://203.0.113.9:81/").unwrap();
    assert_eq!(open.port, Some(81));
    let literal = Some(IpBits::V4([8, 8, 8, 8]));
    assert!(matches!(notification_target(&open, literal), Ok(Target::Address)));
    let inner = Some(IpBits::V4([127, 0, 0, 1]));
    let refused = NotificationError::TargetNotAllowed;
    assert_eq!(notification_target(&open, inner).unwrap_err(), refused);
    let file = parse_url("file:///etc/passwd").unwrap();
    assert_eq!(notification_target(&file, None).unwrap_err(), refused);
    assert_eq!(parse_url("no address").unwrap_err(), NotificationError::InvalidUrl);
    let bad = render_template_url("#NEZHA#", "no address", None, false).unwrap_err();
    assert_eq!(bad.message(), "invalid notification url");
}
