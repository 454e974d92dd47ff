use nezha_dashboard::clock::{unix_now, unix_now_millis};
use nezha_dashboard::cycle::rule_cycle_is_countable;
use nezha_dashboard::ddns::{
    after_attempt, attempts, ddns_profiles_for_server, profile_domains, update_domain,
    wants_update, webhook_request, AttemptStep, DdnsBody, DdnsError, Provider, RequestMethod,
};
use nezha_dashboard::dns::{
    name_in_zone, next_step, soa_candidates, soa_missing, start_search, SearchStep,
};
use nezha_dashboard::frontend::swagger_file;
use nezha_dashboard::history::chart_slot;
use nezha_dashboard::json::{opt_bool_i64, Json};
use nezha_dashboard::jsontext::parse_json;
use nezha_dashboard::model::{DdnsResource, PublicServer};
use nezha_dashboard::moment::{unix_as_rfc3339, unix_opt_as_rfc3339};
use nezha_dashboard::records::{
    alert_rule_from_row, cron_from_row, ddns_added_fields, ddns_from_row, ddns_input,
    ddns_retry_error, named_from_row, nat_from_row, notification_from_row, pending_migrations,
    public_server_from_row, service_from_row, stored_trigger_tasks, transfer_from_row,
    AlertRuleRow, CronRow, NotificationRow, ServerRow, ServiceRow,
};
use nezha_dashboard::signing::{
    cloudflare_payload, cloudflare_record_url, cloudflare_records_url, cloudflare_zone_url,
    describe_payload, modify_payload, record_name, tencentcloud_reply, TencentReply,
};
use nezha_dashboard::users::normalize_provider;

fn json(raw: &str) -> Json {
    parse_json(raw).unwrap()
}

fn profile(id: u64, domains: &[&str]) -> DdnsResource {
    ddns_from_row(
        id as i64,
        1,
        "profile".to_string(),
        "webhook".to_string(),
        domains.iter().map(|domain| domain.to_string()).collect(),
        json("{}"),
        10,
        11,
    )
}

fn server(enable_ddns: i64, domains: Vec<(u64, Vec<String>)>) -> PublicServer {
    public_server_from_row(ServerRow {
        id: 7,
        user_id: 3,
        uuid: "u".to_string(),
        name: "n".to_string(),
        note: String::new(),
        public_note: String::new(),
        display_index: -1,
        hide_for_guest: 1,
        enable_ddns,
        ddns_profiles: vec![2, 4],
        override_ddns_domains: domains,
        host: None,
        state: None,
        geoip: None,
        last_active: -5,
        prev_transfer_in_snapshot: 8,
        prev_transfer_out_snapshot: 9,
    })
}

#[test]
fn schema_version_migrations_are_recorded_and_idempotent() {
    let versions = pending_migrations(0);
    assert_eq!(versions, vec![1, 2, 3, 4, 5]);
    let version = *versions.last().unwrap();
    assert!(version >= 3, "expected at least version 3, got {version}");
    assert!(pending_migrations(version).is_empty());
    assert_eq!(pending_migrations(3), vec![4, 5]);
    assert!(pending_migrations(u32::MAX).is_empty());
}

#[test]
fn the_body_of_a_profile_has_defaults() {
    let body = DdnsBody::from_value(&json("{}"));
    assert!(body.enable_ipv4);
    assert!(!body.enable_ipv6);
    assert_eq!(body.max_retries, 3);
    assert_eq!(body.webhook_method, 1);
    assert_eq!(body.webhook_request_type, 1);
    assert_eq!(attempts(&body), 3);
    let body = DdnsBody::from_value(&json(
        r#"{"enable_ipv4": false, "enable_ipv6": true, "max_retries": 40, "access_id": "i",
            "access_secret": "s", "webhook_method": 258, "webhook_url": "u"}"#,
    ));
    assert!(!body.enable_ipv4);
    assert!(body.enable_ipv6);
    assert_eq!(body.webhook_method, 2);
    assert_eq!(body.access_id, "i");
    assert_eq!(body.access_secret, "s");
    assert_eq!(body.webhook_url, "u");
    assert_eq!(attempts(&body), 10);
    let none = DdnsBody::from_value(&json(r#"{"max_retries": 0}"#));
    assert_eq!(attempts(&none), 1);
}

#[test]
fn webhooks_are_sent_with_their_parts() {
    let mut body = DdnsBody::from_value(&json(
        r##"{"webhook_url": "https://h/#ip#?d=#domain#", "webhook_method": 1,
            "webhook_headers": "{\"x-type\": \"#type#\"}"}"##,
    ));
    let hook = webhook_request(&body, "a.example.com", "AAAA", "::1").unwrap();
    assert_eq!(hook.method, RequestMethod::Get);
    assert_eq!(hook.url, "https://h/%23ip%23?d=%23domain%23");
    assert_eq!(hook.headers, vec![("x-type".to_string(), "ipv6".to_string())]);
    assert_eq!(hook.content, None);
    assert_eq!(hook.content_type, None);

    body.webhook_url = "https://h/".to_string();
    body.webhook_method = 2;
    body.webhook_request_type = 2;
    body.webhook_request_body = r##"{"ip": "#ip#", "n": 1}"##.to_string();
    let hook = webhook_request(&body, "a.example.com", "A", "1.2.3.4").unwrap();
    assert_eq!(hook.method, RequestMethod::Post);
    assert_eq!(hook.content.as_deref(), Some("ip=1.2.3.4&n=1"));
    assert_eq!(hook.content_type, Some("application/x-www-form-urlencoded"));

    body.webhook_method = 9;
    assert_eq!(
        webhook_request(&body, "d", "A", "i").err(),
        Some(DdnsError::MethodNotSupported)
    );
    body.webhook_method = 5;
    body.webhook_request_type = 3;
    assert_eq!(
        webhook_request(&body, "d", "A", "i").err(),
        Some(DdnsError::RequestTypeNotSupported)
    );
    body.webhook_request_type = 2;
    body.webhook_request_body = "{".to_string();
    assert_eq!(webhook_request(&body, "d", "A", "i").err(), Some(DdnsError::NotJson));
    body.webhook_request_body = "[1]".to_string();
    assert_eq!(webhook_request(&body, "d", "A", "i").err(), Some(DdnsError::NotObject));
    assert_eq!(
        DdnsError::MissingAccess.message(),
        "tencentcloud access_id/access_secret are required"
    );
}

#[test]
fn providers_set_the_records_that_are_switched_on() {
    let mut body = DdnsBody::from_value(&json(r#"{"enable_ipv6": true}"#));
    let (provider, updates) = update_domain("webhook", &body, "1.2.3.4", "::1").unwrap();
    assert!(matches!(provider, Provider::Webhook));
    assert_eq!(updates.len(), 2);
    assert_eq!((updates[0].record_type, updates[0].ip.as_str()), ("A", "1.2.3.4"));
    assert_eq!((updates[1].record_type, updates[1].ip.as_str()), ("AAAA", "::1"));
    body.enable_ipv4 = false;
    let (provider, updates) = update_domain("he", &body, "1.2.3.4", "").unwrap();
    assert!(matches!(provider, Provider::HurricaneElectric));
    assert!(updates.is_empty());
    let (provider, updates) = update_domain("dummy", &body, "1.2.3.4", "::1").unwrap();
    assert!(matches!(provider, Provider::Dummy));
    assert!(updates.is_empty());
    assert!(matches!(update_domain("cloudflare", &body, "", "").unwrap().0, Provider::Cloudflare));
    assert!(matches!(
        update_domain("tencentcloud", &body, "", "").unwrap().0,
        Provider::TencentCloud
    ));
    assert_eq!(
        update_domain("other", &body, "", "").err().as_deref(),
        Some("cannot find DDNS provider other")
    );
}

#[test]
fn failures_are_tried_again_until_the_last() {
    assert!(matches!(after_attempt(true, 1, 3), AttemptStep::NextDomain));
    assert!(matches!(after_attempt(false, 2, 3), AttemptStep::TryAgain));
    assert!(matches!(after_attempt(false, 3, 3), AttemptStep::GiveUp));
}

#[test]
fn servers_may_have_names_of_their_own() {
    let own = server(1, vec![(2, vec!["own.example.com".to_string()]), (4, Vec::new())]);
    assert_eq!(profile_domains(&own, &profile(2, &["a"])), vec!["own.example.com"]);
    assert_eq!(profile_domains(&own, &profile(4, &["a", "b"])), vec!["a", "b"]);
    assert_eq!(profile_domains(&own, &profile(5, &["c"])), vec!["c"]);
    let profiles = vec![profile(1, &[]), profile(2, &[]), profile(3, &[]), profile(4, &[])];
    assert_eq!(ddns_profiles_for_server(&profiles, &own.ddns_profiles), vec![1, 3]);
    assert!(wants_update(&own, "1.2.3.4", ""));
    assert!(!wants_update(&own, "", ""));
    assert!(!wants_update(&server(0, Vec::new()), "1.2.3.4", "::1"));
}

#[test]
fn rows_are_read_as_they_are_stored() {
    let s = server(1, Vec::new());
    assert_eq!((s.id, s.user_id, s.display_index), (7, 3, -1));
    assert!(s.hide_for_guest && s.enable_ddns);
    assert_eq!(s.last_active, 0);
    assert_eq!((s.prev_transfer_in_snapshot, s.prev_transfer_out_snapshot), (8, 9));

    let n = named_from_row(1, "g".to_string(), 2, 3, -4);
    assert_eq!((n.id, n.user_id, n.created_at, n.updated_at), (1, 2, 3, 0));
    let w = nat_from_row(1, 2, 0, "n".into(), 3, "h".into(), "d".into(), 4, 5);
    assert!(!w.enabled);
    assert_eq!((w.server_id, w.host.as_str(), w.domain.as_str()), (3, "h", "d"));
    let t = transfer_from_row(1, 2, 3, -4, 5, 6);
    assert_eq!((t.in_bytes, t.out_bytes, t.created_at), (3, 0, 5));

    let n = notification_from_row(NotificationRow {
        id: 1,
        user_id: 2,
        name: "n".into(),
        url: "u".into(),
        request_method: 2,
        request_type: 1,
        request_header: "h".into(),
        request_body: "b".into(),
        verify_tls: Some(1),
        format_metric_units: Some(0),
        skip_check: None,
        created_at: 3,
        updated_at: 4,
    });
    assert_eq!((n.request_method, n.request_type), (2, 1));
    assert_eq!((n.verify_tls, n.format_metric_units, n.skip_check), (Some(true), Some(false), None));

    let c = cron_from_row(CronRow {
        id: 1,
        user_id: 2,
        name: "n".into(),
        task_type: 1,
        scheduler: "s".into(),
        command: "c".into(),
        servers: vec![5],
        push_successful: 1,
        notification_group_id: 6,
        last_executed_at: Some(7),
        last_result: 0,
        cover: 2,
        created_at: 3,
        updated_at: 4,
    });
    assert_eq!((c.task_type, c.cover, c.last_executed_at), (1, 2, Some(7)));
    assert!(c.push_successful && !c.last_result);
    assert_eq!(c.servers, vec![5]);

    let v = service_from_row(ServiceRow {
        id: 1,
        user_id: 2,
        name: "n".into(),
        service_type: 3,
        target: "t".into(),
        duration: 30,
        display_index: 4,
        notify: 1,
        notification_group_id: 5,
        cover: 1,
        skip_servers: Vec::new(),
        enable_trigger_task: 0,
        enable_show_in_service: 1,
        fail_trigger_tasks: vec![8],
        recover_trigger_tasks: vec![9],
        latency_notify: 1,
        created_at: 6,
        updated_at: 7,
    });
    assert_eq!((v.service_type, v.duration, v.display_index, v.cover), (3, 30, 4, 1));
    assert!(v.notify && !v.enable_trigger_task && v.enable_show_in_service && v.latency_notify);
    assert_eq!((v.fail_trigger_tasks, v.recover_trigger_tasks), (vec![8], vec![9]));

    let a = alert_rule_from_row(AlertRuleRow {
        id: 1,
        user_id: 2,
        name: "n".into(),
        enable: Some(1),
        trigger_mode: 1,
        notification_group_id: 3,
        rules: vec![json(r#"{"type": "cpu"}"#)],
        fail_trigger_tasks: vec![4],
        recover_trigger_tasks: Vec::new(),
        muted_until: -1,
        created_at: 5,
        updated_at: 6,
    });
    assert_eq!((a.enable, a.trigger_mode, a.muted_until), (Some(true), 1, 0));
    assert_eq!(a.rules.len(), 1);
}

#[test]
fn trigger_tasks_are_stored_as_they_are_given() {
    let body = json(r#"{"trigger_tasks": {"1": true}}"#);
    assert!(matches!(stored_trigger_tasks(&body), Some(Json::Object(_))));
    assert!(stored_trigger_tasks(&json("{}")).is_none());
    assert!(ddns_input(&json(r#"{"max_retries": 11}"#)).is_none());
    assert_eq!(ddns_retry_error(), "the retry count must be an integer between 1 and 10");
}

#[test]
fn profiles_tell_no_field_twice() {
    let body = json(r#"{"access_id": "i", "domains": [], "id": 9, "webhook_url": "u"}"#);
    let Json::Object(entries) = &body else {
        panic!("no object");
    };
    let added: Vec<&str> =
        ddns_added_fields(&body).into_iter().map(|i| entries[i].0.as_str()).collect();
    assert_eq!(added, vec!["access_id", "webhook_url"]);
    assert!(ddns_added_fields(&Json::Null).is_empty());
}

#[test]
fn requests_to_providers_are_written() {
    assert_eq!(
        cloudflare_payload("A", "a.example.com", "1.2.3.4"),
        r#"{"content":"1.2.3.4","name":"a.example.com","ttl":60,"type":"A"}"#
    );
    assert_eq!(
        describe_payload("example.com", "a\"b", "A"),
        r#"{"Domain":"example.com","RecordType":"A","Subdomain":"a\"b"}"#
    );
    assert_eq!(
        modify_payload("example.com", "@", "A", "1.2.3.4", 77),
        "{\"Domain\":\"example.com\",\"RecordId\":77,\"RecordLine\":\"默认\",\
         \"RecordType\":\"A\",\"SubDomain\":\"@\",\"Value\":\"1.2.3.4\"}"
    );
    assert_eq!(record_name(""), "@");
    assert_eq!(record_name("www"), "www");
    assert_eq!(
        cloudflare_zone_url("example.com"),
        "https://api.cloudflare.com/client/v4/zones?name=example.com"
    );
    assert_eq!(
        cloudflare_records_url("z", "A", "a.example.com"),
        "https://api.cloudflare.com/client/v4/zones/z/dns_records?type=A&name=a.example.com"
    );
    assert_eq!(
        cloudflare_record_url("z", "r"),
        "https://api.cloudflare.com/client/v4/zones/z/dns_records/r"
    );
}

#[test]
fn replies_of_providers_are_read() {
    let found = json(r#"{"Response": {"RecordList": [{"RecordId": 12}, {"RecordId": 13}]}}"#);
    assert!(matches!(tencentcloud_reply(&found), TencentReply::Record(12)));
    let none = json(r#"{"Response": {"RecordList": []}}"#);
    assert!(matches!(tencentcloud_reply(&none), TencentReply::NoRecord));
    let failed = json(r#"{"Response": {"Error": null, "RecordList": [{"RecordId": 12}]}}"#);
    assert!(matches!(tencentcloud_reply(&failed), TencentReply::Failed));
}

#[test]
fn the_longest_known_zone_is_found() {
    let labels: Vec<String> = ["a", "b", "example", "com"].iter().map(|s| s.to_string()).collect();
    let zones = soa_candidates(&labels);
    let known = |zone: usize, server: usize| zones[zone] == "example.com" && server == 1;
    let mut asked = Vec::new();
    let mut step = start_search(zones.len(), 2);
    while let SearchStep::Ask { zone, server } = step {
        asked.push((zone, server));
        step = next_step(zones.len(), 2, zone, server, known(zone, server));
    }
    assert_eq!(step, SearchStep::Found(2));
    assert_eq!(asked, vec![(0, 0), (0, 1), (1, 0), (1, 1), (2, 0), (2, 1)]);
    assert_eq!(name_in_zone(&labels, &zones[2]), "a.b");
    assert_eq!(name_in_zone(&labels, &zones[0]), "");
    assert_eq!(next_step(4, 2, 3, 1, false), SearchStep::NotFound);
    assert_eq!(start_search(4, 0), SearchStep::NotFound);
    assert_eq!(
        soa_missing("a.example.com.."),
        "SOA record not found for domain: a.example.com"
    );
}

#[test]
fn seconds_are_told_as_times() {
    assert_eq!(unix_as_rfc3339(0), "0001-01-01T00:00:00Z");
    assert_eq!(unix_as_rfc3339(1_700_000_000), "2023-11-14T22:13:20Z");
    assert_eq!(unix_as_rfc3339(u64::MAX), "1969-12-31T23:59:59Z");
    assert_eq!(unix_as_rfc3339(i64::MAX as u64), "0001-01-01T00:00:00Z");
    assert_eq!(unix_opt_as_rfc3339(None), "0001-01-01T00:00:00Z");
    assert_eq!(unix_opt_as_rfc3339(Some(60)), "1970-01-01T00:01:00Z");
}

#[test]
fn the_clock_agrees_with_itself() {
    let seconds = unix_now();
    let millis = unix_now_millis();
    assert!(seconds > 1_600_000_000);
    assert!(millis / 1000 >= seconds && millis / 1000 <= seconds + 5);
}

#[test]
fn charts_are_filled_from_the_end() {
    assert_eq!(chart_slot(30, 0), 0);
    assert_eq!(chart_slot(1, 0), 29);
    assert_eq!(chart_slot(10, 9), 29);
    assert_eq!(chart_slot(10, 0), 20);
}

#[test]
fn cycles_without_end_are_not_counted() {
    assert!(rule_cycle_is_countable(&json(r#"{"cycle_interval": 1, "cycle_unit": "month"}"#)));
    assert!(rule_cycle_is_countable(&json("{}")));
    let long = r#"{"cycle_start": 0, "cycle_interval": 9223372036854775807, "cycle_unit": "week"}"#;
    assert!(!rule_cycle_is_countable(&json(long)));
    assert!(rule_cycle_is_countable(&json(
        r#"{"cycle_interval": 9223372036854775807, "cycle_unit": "week"}"#
    )));
}

#[test]
fn the_interface_describes_itself() {
    assert_eq!(
        swagger_file("/"),
        Some(("index.html".to_string(), "text/html; charset=utf-8"))
    );
    assert_eq!(
        swagger_file("//doc.json"),
        Some(("doc.json".to_string(), "application/json; charset=utf-8"))
    );
    assert_eq!(
        swagger_file("swagger-ui-bundle.js").map(|file| file.1),
        Some("text/javascript; charset=utf-8")
    );
    assert_eq!(swagger_file("favicon-16x16.png").map(|file| file.1), Some("image/png"));
    assert_eq!(swagger_file("other.js"), None);
}

#[test]
fn flags_and_names_are_normal() {
    assert_eq!(opt_bool_i64(&json(r#"{"a": true}"#), "a"), Some(1));
    assert_eq!(opt_bool_i64(&json(r#"{"a": false}"#), "a"), Some(0));
    assert_eq!(opt_bool_i64(&json(r#"{"a": 1}"#), "a"), None);
    assert_eq!(normalize_provider(" GitHub "), "github");
}
