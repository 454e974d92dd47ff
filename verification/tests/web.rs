use nezha_dashboard::access::{
    filter_cycle_transfer_stats, filter_owned, server_name, user_can_manage_server,
    user_can_view_server, visible_ids, AccessError, Claims,
};
use nezha_dashboard::alerts::CycleTransferStats;
use nezha_dashboard::clock::unix_now;
use nezha_dashboard::config::{
    config_http_bind, resolve_dashboard_config, DashboardArgs, DashboardConfigFile,
};
use nezha_dashboard::frontend::FrontendTemplate;
use nezha_dashboard::guests::{filter_server_groups, server_stream_frame};
use nezha_dashboard::ip::{
    desensitize_ip, ip_text_from_header, parse_ip_from_header, request_ip, IpBits, IpHeader,
    RealIpError,
};
use nezha_dashboard::json::Json;
use nezha_dashboard::jsonpath::{json_path_segments, json_path_string, PathText};
use nezha_dashboard::jsontext::parse_json;
use nezha_dashboard::members::{only_member, read_members};
use nezha_dashboard::model::{
    CronResource, NamedResource, NatResource, NotificationGroupResource, PublicServer,
    ServerGroupResource,
};
use nezha_dashboard::oauth2::{
    access_token, callback_target, check_callback, counts_as_failure, default_oauth2_login_type,
    encode_oauth2_state_cookie, find_provider, form_pairs, landing_page, oauth2_auth_url,
    oauth2_redirect_url, oauth2_state_from_headers, open_id, CallbackTarget, OAuth2Error,
    OAuth2StateClaims,
};
use nezha_dashboard::passage::{
    find_header_end, nat_for_request, nat_request_bytes, parse_nat_response,
    read_nat_response_head, HeadStep, PassageError,
};
use nezha_dashboard::requests::{
    history_access, history_since, id_list, may_delete_users, may_move_to, page_of,
    period_seconds, unique_strings, unique_u64s, validate_alert_rule_references,
    validate_cron_references, validate_monitor_references, validate_nat_server,
    validate_notification_group_ref, validate_server_group_servers, validate_server_ids,
};
use nezha_dashboard::settings::{
    api_language, apply_setting_patch, ignored_ip_notification_server_ids, setting_config,
    DashboardSettings, OAuth2Config, OAuth2Endpoint, SettingError, SettingPatch, Shown,
};
use nezha_dashboard::tokens::{
    admit_request, authenticate_request, claims_from, cookie_value, decode_token, header_token,
    issue_token, jwt_cookie, request_token, require_admin, require_auth,
};

fn json(raw: &str) -> Json {
    parse_json(raw).unwrap()
}

fn claims(uid: u64, role: u8) -> Claims {
    Claims { sub: uid.to_string(), uid, username: "user".into(), role, exp: u64::MAX }
}

fn server(id: u64, user_id: u64, hide_for_guest: bool) -> PublicServer {
    PublicServer {
        id,
        user_id,
        uuid: String::new(),
        name: format!("server-{id}"),
        note: String::new(),
        public_note: "note".into(),
        display_index: 0,
        hide_for_guest,
        enable_ddns: false,
        ddns_profiles: vec![],
        override_ddns_domains: vec![],
        host: None,
        state: None,
        geoip: None,
        last_active: 0,
        prev_transfer_in_snapshot: 0,
        prev_transfer_out_snapshot: 0,
    }
}

fn named(id: u64, user_id: u64) -> NamedResource {
    NamedResource { id, name: "group".into(), user_id, created_at: 0, updated_at: 0 }
}

fn notification_group(id: u64, user_id: u64) -> NotificationGroupResource {
    NotificationGroupResource { group: named(id, user_id), notifications: vec![] }
}

fn cron(id: u64, user_id: u64) -> CronResource {
    CronResource {
        id,
        user_id,
        name: "cron".into(),
        task_type: 0,
        scheduler: String::new(),
        command: String::new(),
        servers: vec![],
        push_successful: false,
        notification_group_id: 0,
        last_executed_at: None,
        last_result: false,
        cover: 0,
        created_at: 0,
        updated_at: 0,
    }
}

fn provider(client_id: &str) -> OAuth2Config {
    OAuth2Config {
        client_id: client_id.into(),
        client_secret: "secret".into(),
        endpoint: OAuth2Endpoint {
            auth_url: "https://github.com/login/oauth/authorize".into(),
            token_url: "https://github.com/login/oauth/access_token".into(),
        },
        scopes: vec!["user:email".into()],
        user_info_url: "https://api.github.com/user".into(),
        user_id_path: "id".into(),
    }
}

fn catalog() -> Vec<FrontendTemplate> {
    let mut out = vec![];
    for (path, is_admin) in
        [("admin-dist", true), ("user-dist", false), ("nazhua-dist", false)]
    {
        out.push(FrontendTemplate {
            path: path.into(),
            name: path.into(),
            repository: String::new(),
            author: String::new(),
            version: String::new(),
            is_admin,
            is_official: true,
        });
    }
    out
}

fn empty_patch() -> SettingPatch {
    SettingPatch {
        language: None,
        site_name: None,
        custom_code: None,
        custom_code_dashboard: None,
        install_host: None,
        tls: None,
        dns_servers: None,
        ignored_ip_notification: None,
        ip_change_notification_group_id: None,
        cover: None,
        web_real_ip_header: None,
        agent_real_ip_header: None,
        user_template: None,
        enable_ip_change_notification: None,
        enable_plain_ip_in_notification: None,
        oauth2: None,
    }
}

#[test]
fn jwt_roundtrip() {
    let token = issue_token("secret", unix_now(), 1, 1, "admin", 0).token;
    let header = format!("Bearer {token}");
    let claims = require_auth("secret", Some(&header), None, None).unwrap();
    assert_eq!(claims.uid, 1);
    assert_eq!(claims.sub, "1");
    assert_eq!(claims.username, "admin");
    assert_eq!(claims.role, 0);
    assert!(decode_token("other", &token).is_err());
    assert!(decode_token("secret", "no token").is_err());
}

#[test]
fn old_tokens_are_refused() {
    let response = issue_token("secret", 1000, 1, 1, "admin", 0);
    assert_eq!(response.expire, "4600");
    assert!(decode_token("secret", &response.token).is_err());
}

#[test]
fn accepts_cookie_token_for_websocket_compatible_auth() {
    let token = issue_token("secret", unix_now(), 1, 2, "member", 1).token;
    let cookie = format!("nz-jwt={token}");
    let claims = require_auth("secret", None, None, Some(&cookie)).unwrap();
    assert_eq!(claims.uid, 2);
    assert_eq!(require_admin(claims).unwrap_err(), AccessError::PermissionDenied);
}

#[test]
fn tokens_are_found_in_order() {
    assert_eq!(header_token("Bearer abc"), "abc");
    assert_eq!(header_token("abc"), "abc");
    let cookies = "a=b; nz-jwt=from-cookie; c";
    assert_eq!(cookie_value(Some(cookies), "nz-jwt"), Some("from-cookie".to_string()));
    assert_eq!(cookie_value(Some(cookies), "c"), None);
    assert_eq!(
        request_token(Some("Bearer h"), Some("q"), Some(cookies)),
        Some("h".to_string())
    );
    assert_eq!(request_token(None, Some("q"), Some(cookies)), Some("q".to_string()));
    assert_eq!(request_token(None, None, Some(cookies)), Some("from-cookie".to_string()));
    assert_eq!(request_token(None, None, None), None);
}

#[test]
fn guests_are_let_in_unless_all_must_sign_in() {
    assert!(matches!(authenticate_request("s", false, None, None, None), Ok(None)));
    assert!(authenticate_request("s", true, None, None, None).is_err());
    assert!(authenticate_request("s", false, Some("bad"), None, None).is_err());
    assert!(matches!(admit_request(true, true, Ok(claims(5, 1))), Ok(Some(c)) if c.uid == 5));
}

#[test]
fn tokens_are_kept_in_a_cookie() {
    assert_eq!(
        jwt_cookie("token", 2),
        "nz-jwt=token; Path=/; Max-Age=7200; SameSite=Lax; HttpOnly"
    );
    assert!(jwt_cookie("token", u64::MAX).contains("Max-Age=18446744073709551615"));
}

#[test]
fn server_stream_hides_guest_hidden_servers_from_guests() {
    let guest_frame = server_stream_frame(vec![server(1, 0, true)], None, true);
    assert!(guest_frame.iter().all(|s| s.server.id != 1));

    let owner = claims(42, 1);
    let owner_frame = server_stream_frame(vec![server(1, 42, true)], Some(&owner), true);
    assert!(owner_frame.iter().any(|s| s.server.id == 1));
    assert!(!owner_frame[0].hide_host);
    assert_eq!(owner_frame[0].server.public_note, "note");

    let other = server_stream_frame(vec![server(1, 42, false)], Some(&claims(7, 1)), false);
    assert!(other[0].hide_host);
    assert_eq!(other[0].server.public_note, "");
}

#[test]
fn server_management_requires_owner_or_admin() {
    let servers = vec![server(1, 100, false)];
    let owner = claims(100, 1);
    let foreign = claims(200, 1);
    let admin = claims(1, 0);
    assert!(user_can_manage_server(&servers, &owner, 1));
    assert!(user_can_manage_server(&servers, &admin, 1));
    assert!(!user_can_manage_server(&servers, &foreign, 1));
    assert!(!user_can_manage_server(&servers, &foreign, 9999));
    assert_eq!(server_name(&servers, 1), Ok("server-1".to_string()));
    assert_eq!(server_name(&servers, 2), Err(AccessError::ServerNotFound));
}

#[test]
fn permission_matrix_filters_and_validates_owned_resources() {
    let (alice_id, bob_id) = (2, 3);
    let servers = vec![server(1, alice_id, false), server(2, bob_id, false)];
    let groups = vec![notification_group(10, alice_id), notification_group(11, bob_id)];
    let crons = vec![cron(20, alice_id)];
    let alice = claims(alice_id, 1);
    let admin = claims(1, 0);

    let visible = filter_owned(servers.clone(), &alice);
    assert_eq!(visible.len(), 1);
    assert_eq!(visible[0].id, 1);
    assert_eq!(filter_owned(servers.clone(), &admin).len(), 2);
    assert!(validate_server_ids(&servers, &alice, &[1]).is_ok());
    assert!(validate_server_ids(&servers, &alice, &[2]).is_err());
    assert!(validate_server_ids(&servers, &admin, &[2]).is_ok());
    assert!(validate_notification_group_ref(&groups, &alice, 10).is_ok());
    assert!(validate_notification_group_ref(&groups, &alice, 11).is_err());
    assert!(validate_notification_group_ref(&groups, &alice, 0).is_ok());

    let monitor = json(
        r#"{"skip_servers":{"1":true},"trigger_tasks":{"20":true},"notification_group_id":10}"#,
    );
    assert!(validate_monitor_references(&servers, &crons, &groups, &alice, &monitor).is_ok());
    let foreign = json(r#"{"skip_servers":{"2":true}}"#);
    assert!(validate_monitor_references(&servers, &crons, &groups, &alice, &foreign).is_err());
    let task = json(r#"{"servers":[2],"notification_group_id":10}"#);
    assert!(validate_cron_references(&servers, &groups, &alice, &task).is_err());
    let alert = json(r#"{"fail_trigger_tasks":[20],"recover_trigger_tasks":[21]}"#);
    assert!(validate_alert_rule_references(&crons, &groups, &alice, &alert).is_err());
    let alert = json(r#"{"fail_trigger_tasks":[20]}"#);
    assert!(validate_alert_rule_references(&crons, &groups, &alice, &alert).is_ok());
    assert!(validate_nat_server(&servers, &alice, &json(r#"{"server_id":2}"#)).is_err());
    assert!(validate_nat_server(&servers, &alice, &json("{}")).is_ok());
    assert_eq!(
        validate_server_group_servers(&servers, &alice, &[1, 9]),
        Err(AccessError::InvalidServerId)
    );
    assert_eq!(
        validate_server_group_servers(&servers, &alice, &[2, 9]),
        Err(AccessError::PermissionDenied)
    );
    assert_eq!(may_move_to(&alice, 0), Err(AccessError::UserIdRequired));
    assert_eq!(may_move_to(&alice, bob_id), Err(AccessError::PermissionDenied));
    assert_eq!(may_move_to(&admin, bob_id), Ok(()));
    assert_eq!(may_delete_users(&admin, &[1, 2]).unwrap_err().message(), "can't delete yourself");
}

#[test]
fn service_server_visibility_matches_upstream_optional_auth() {
    let hidden = server(1, 100, true);
    let public = server(2, 200, false);
    let owner = claims(100, 1);
    let foreign = claims(300, 1);
    let admin = claims(1, 0);
    assert!(!user_can_view_server(None, &hidden));
    assert!(user_can_view_server(None, &public));
    assert!(user_can_view_server(Some(&owner), &hidden));
    assert!(!user_can_view_server(Some(&foreign), &hidden));
    assert!(user_can_view_server(Some(&foreign), &public));
    assert!(user_can_view_server(Some(&admin), &hidden));
    assert_eq!(visible_ids(None, &[hidden, public], &[1, 2, 3]), vec![2]);
}

#[test]
fn groups_show_what_their_viewer_may_see() {
    let servers = vec![server(1, 100, true), server(2, 100, false)];
    let groups = || {
        vec![
            ServerGroupResource { group: named(1, 100), servers: vec![1, 2] },
            ServerGroupResource { group: named(2, 200), servers: vec![2] },
        ]
    };
    let guest = filter_server_groups(groups(), &servers, None);
    assert_eq!(guest.len(), 2);
    assert_eq!(guest[0].servers, vec![2]);
    let member = filter_server_groups(groups(), &servers, Some(&claims(100, 1)));
    assert_eq!(member.len(), 1);
    assert_eq!(member[0].servers, vec![1, 2]);
    assert_eq!(filter_server_groups(groups(), &servers, Some(&claims(1, 0))).len(), 2);
}

#[test]
fn cycles_are_published_of_visible_servers() {
    let stats = |id: u64| {
        let mut s = CycleTransferStats {
            name: "cycle".into(),
            from: 0,
            to: 0,
            max: 0,
            min: 0,
            server_name: Default::default(),
            transfer: Default::default(),
            next_update: Default::default(),
        };
        s.server_name.insert(id, "name".into());
        s.transfer.insert(id, 7);
        s
    };
    let mut all = std::collections::HashMap::new();
    all.insert(10, stats(1));
    all.insert(11, stats(2));
    let servers = vec![server(1, 100, true), server(2, 100, false)];
    let guest = filter_cycle_transfer_stats(all, None, &servers);
    assert_eq!(guest.len(), 1);
    assert_eq!(guest.get(&11).unwrap().transfer.get(&2), Some(&7));
}

fn shown<'a>(config: &'a [(String, Shown)], key: &str) -> Option<&'a Shown> {
    config.iter().find(|e| e.0 == key).map(|e| &e.1)
}

fn is_text(config: &[(String, Shown)], key: &str, text: &str) -> bool {
    matches!(shown(config, key), Some(Shown::Text(s)) if s == text)
}

#[test]
fn setting_response_filters_guest_and_admin_fields_like_upstream() {
    let mut settings = DashboardSettings::default();
    settings.language = "zh_CN".into();
    settings.site_name = "Nezha RS".into();
    settings.custom_code = "<script></script>".into();
    settings.install_host = "https://example.com".into();
    settings.tls = true;
    settings.dns_servers = "1.1.1.1".into();
    settings.ignored_ip_notification = "1, 2".into();
    settings.ip_change_notification_group_id = 9;
    settings.cover = 1;
    settings.web_real_ip_header = "X-Real-IP".into();
    settings.enable_ip_change_notification = true;
    settings.oauth2.push(("github".into(), provider("id")));

    let guest = setting_config(&settings, false, false);
    assert!(is_text(&guest, "language", "zh-CN"));
    assert!(is_text(&guest, "site_name", "Nezha RS"));
    assert!(is_text(&guest, "custom_code", "<script></script>"));
    assert!(matches!(shown(&guest, "oauth2_providers"), Some(Shown::Names(v)) if v == &["github"]));
    assert!(shown(&guest, "install_host").is_none());
    assert!(shown(&guest, "dns_servers").is_none());

    let admin = setting_config(&settings, true, true);
    assert!(is_text(&admin, "install_host", "https://example.com"));
    assert!(matches!(shown(&admin, "tls"), Some(Shown::Flag(true))));
    assert!(is_text(&admin, "dns_servers", "1.1.1.1"));
    assert!(matches!(
        shown(&admin, "ignored_ip_notification_server_ids"),
        Some(Shown::Ids(m)) if m.len() == 2 && m.get(&1) == Some(&true)
    ));
    assert!(matches!(
        shown(&admin, "ip_change_notification_group_id"),
        Some(Shown::Number(9))
    ));
    assert!(matches!(shown(&admin, "cover"), Some(Shown::Number(1))));
    assert!(is_text(&admin, "web_real_ip_header", "X-Real-IP"));
    assert!(is_text(&admin, "user_template", "user-dist"));
    assert!(is_text(&admin, "admin_template", "admin-dist"));
    assert!(matches!(
        shown(&admin, "enable_ip_change_notification"),
        Some(Shown::Flag(true))
    ));
    assert!(shown(&admin, "enable_plain_ip_in_notification").is_none());
    assert_eq!(api_language("zh_CN"), "zh-CN");
    assert_eq!(ignored_ip_notification_server_ids("1,x, 1").len(), 1);
}

#[test]
fn setting_patch_updates_supported_dashboard_fields() {
    let mut settings = DashboardSettings::default();
    let patch = SettingPatch {
        language: Some("zh-CN".to_string()),
        site_name: Some(" Nezha RS ".to_string()),
        custom_code: Some("<script></script>".to_string()),
        custom_code_dashboard: Some("<style></style>".to_string()),
        install_host: Some(" https://example.com ".to_string()),
        tls: Some(true),
        dns_servers: Some("1.1.1.1,8.8.8.8".to_string()),
        ignored_ip_notification: Some("1,2".to_string()),
        ip_change_notification_group_id: Some(7),
        cover: Some(1),
        web_real_ip_header: Some(" X-Real-IP ".to_string()),
        agent_real_ip_header: Some(" CF-Connecting-IP ".to_string()),
        user_template: Some("user-dist".to_string()),
        enable_ip_change_notification: Some(true),
        enable_plain_ip_in_notification: Some(true),
        oauth2: Some(vec![("GitHub".to_string(), provider("client"))]),
    };
    apply_setting_patch(&mut settings, patch, &catalog()).unwrap();

    assert_eq!(settings.language, "zh_CN");
    assert_eq!(settings.site_name, "Nezha RS");
    assert_eq!(settings.install_host, "https://example.com");
    assert!(settings.tls);
    assert_eq!(settings.web_real_ip_header, "X-Real-IP");
    assert_eq!(settings.agent_real_ip_header, "CF-Connecting-IP");
    assert_eq!(settings.ip_change_notification_group_id, 7);
    assert!(settings.enable_ip_change_notification);
    assert!(settings.enable_plain_ip_in_notification);
    assert_eq!(settings.oauth2[0].0, "github");
    assert_eq!(find_provider(&settings, " GitHub ").unwrap().0, "github");
    assert_eq!(find_provider(&settings, " ").unwrap_err(), OAuth2Error::ProviderRequired);
    assert_eq!(find_provider(&settings, "gitlab").unwrap_err(), OAuth2Error::ProviderNotFound);
}

#[test]
fn setting_patch_rejects_invalid_template_and_empty_site_name() {
    let mut settings = DashboardSettings::default();
    let mut patch = empty_patch();
    patch.site_name = Some(" ".to_string());
    assert_eq!(
        apply_setting_patch(&mut settings, patch, &catalog()),
        Err(SettingError::SiteName)
    );
    let mut patch = empty_patch();
    patch.user_template = Some("nazhua-dist".to_string());
    assert!(apply_setting_patch(&mut settings, patch, &catalog()).is_ok());
    let mut patch = empty_patch();
    patch.user_template = Some("admin-dist".to_string());
    assert_eq!(
        apply_setting_patch(&mut settings, patch, &catalog()),
        Err(SettingError::UserTemplate)
    );
    let mut patch = empty_patch();
    patch.language = Some("z".to_string());
    assert_eq!(
        apply_setting_patch(&mut settings, patch, &catalog()),
        Err(SettingError::Language)
    );
    assert_eq!(settings.site_name, "Nezha");
    assert_eq!(settings.user_template, "nazhua-dist");
}

#[test]
fn providers_that_cannot_be_asked_are_refused() {
    let refuse = |config: OAuth2Config| {
        let mut settings = DashboardSettings::default();
        let mut patch = empty_patch();
        patch.oauth2 = Some(vec![("p".to_string(), config)]);
        apply_setting_patch(&mut settings, patch, &catalog()).unwrap_err()
    };
    assert_eq!(refuse(provider(" ")), SettingError::ClientId);
    let mut config = provider("id");
    config.client_secret = String::new();
    assert_eq!(refuse(config), SettingError::ClientSecret);
    let mut config = provider("id");
    config.endpoint.auth_url = "ftp://x".into();
    assert_eq!(refuse(config), SettingError::AuthUrl);
    let mut config = provider("id");
    config.endpoint.token_url = String::new();
    assert_eq!(refuse(config), SettingError::TokenUrl);
    let mut config = provider("id");
    config.user_info_url = "x".into();
    assert_eq!(refuse(config).message(), "oauth2 user_info_url is invalid");
}

#[test]
fn oauth2_redirect_url_and_state_cookie_match_callback_contract() {
    let redirect_url = oauth2_redirect_url(Some("https"), None, Some("dash.example.com"));
    let mut config = provider("client id");
    config.endpoint.auth_url = "https://idp.example.com/authorize".into();
    config.scopes = vec!["openid".into(), "profile".into()];
    let auth_url = oauth2_auth_url(&config, &redirect_url, "state-1");

    assert_eq!(redirect_url, "https://dash.example.com/api/v1/oauth2/callback");
    assert!(auth_url.contains("client_id=client+id"));
    assert!(auth_url.contains(
        "redirect_uri=https%3A%2F%2Fdash.example.com%2Fapi%2Fv1%2Foauth2%2Fcallback"
    ));
    assert!(auth_url.contains("scope=openid+profile"));
    assert!(auth_url.contains("state=state-1"));
    assert!(auth_url.starts_with("https://idp.example.com/authorize?response_type=code&"));

    let state = OAuth2StateClaims {
        action: 2,
        provider: "github".into(),
        state: "state-1".into(),
        redirect_url,
        exp: unix_now() + 300,
    };
    let cookie = encode_oauth2_state_cookie("secret", &state);
    assert!(cookie.contains("HttpOnly"));
    assert!(cookie.contains("SameSite=Lax"));

    let sent = cookie.split(';').next().unwrap().to_string();
    let kept = oauth2_state_from_headers("secret", Some(&sent)).unwrap();
    assert_eq!(kept.action, 2);
    assert_eq!(kept.provider, "github");
    assert!(oauth2_state_from_headers("other", Some(&sent)).is_none());
    assert!(check_callback(Some("state-1"), Some(kept), Some("code")).is_ok());
    let kept = oauth2_state_from_headers("secret", Some(&sent));
    let refused = check_callback(Some("state-2"), kept, Some("code")).unwrap_err();
    assert_eq!(refused, OAuth2Error::InvalidState);
    assert!(counts_as_failure(refused));
    let kept = oauth2_state_from_headers("secret", Some(&sent));
    assert_eq!(
        check_callback(Some("state-1"), kept, Some("")).unwrap_err(),
        OAuth2Error::CodeRequired
    );
    assert_eq!(
        oauth2_redirect_url(None, Some("http://x"), None),
        "http://localhost/api/v1/oauth2/callback"
    );
    assert_eq!(
        oauth2_redirect_url(Some("http"), Some("https://x"), None),
        "https://localhost/api/v1/oauth2/callback"
    );
}

#[test]
fn identities_are_bound_or_sign_in() {
    assert_eq!(callback_target(2, Some(5)), Ok(CallbackTarget::Bind(5)));
    assert_eq!(callback_target(2, None), Err(OAuth2Error::Unauthorized));
    assert_eq!(callback_target(default_oauth2_login_type(), None), Ok(CallbackTarget::SignIn));
    assert_eq!(landing_page(2), "/dashboard/profile?oauth2=true");
    assert_eq!(landing_page(1), "/dashboard/login?oauth2=true");
    assert_eq!(access_token(r#"{"access_token":"t"}"#), Ok("t".to_string()));
    assert_eq!(access_token("{}"), Err(OAuth2Error::TokenMissing));
    assert_eq!(access_token("nothing"), Err(OAuth2Error::BadTokenReply));
    assert!(matches!(open_id(r#"{"id":7}"#, "id"), Ok(PathText::Text(s)) if s == "7"));
    assert!(matches!(open_id(r#"{"id":""}"#, "id"), Err(OAuth2Error::UserIdMissing)));
    assert!(matches!(open_id("nothing", "id"), Err(OAuth2Error::BadUserInfo)));
    assert_eq!(form_pairs(&[("a", "b c"), ("d", ""), ("e", "&")]), "a=b+c&e=%26");
}

fn path_string(value: &Json, path: &str) -> Option<String> {
    match json_path_string(value, path) {
        Some(PathText::Text(s)) => Some(s),
        Some(PathText::Fraction(s)) => Some(s),
        None => None,
    }
}

#[test]
fn oauth2_user_id_path_supports_gjson_like_segments() {
    let value = json(
        r#"{"data":{"users":[{"id":7},{"id":"second"}],"profile.name":{"sub":true}}}"#,
    );
    assert_eq!(path_string(&value, "data.users.0.id"), Some("7".into()));
    assert_eq!(path_string(&value, "data.users[1].id"), Some("second".into()));
    assert_eq!(path_string(&value, r#"data.profile\.name.sub"#), Some("true".into()));
    assert_eq!(path_string(&value, "data.users.#"), Some("2".into()));
    assert_eq!(path_string(&value, r#"data["profile.name"].sub"#), Some("true".into()));
    assert_eq!(path_string(&value, "data.users.2.id"), None);
    assert_eq!(path_string(&value, "data.users"), None);
    assert_eq!(path_string(&json(r#"{"n":-5}"#), "n"), Some("-5".into()));
    assert_eq!(json_path_segments("a..b[ 'c]' ]"), vec!["a", "b", "c]"]);
}

#[test]
fn accepts_upstream_and_legacy_batch_delete_shapes() {
    assert_eq!(id_list(&json("[1, 2]")), vec![1, 2]);
    assert_eq!(id_list(&json(r#"{"ids":[3, 4]}"#)), vec![3, 4]);
    assert_eq!(id_list(&json(r#"{"ids":3}"#)), Vec::<u64>::new());
}

#[test]
fn online_user_helpers_unique_and_mask_ips() {
    assert_eq!(
        unique_strings(vec![
            " 203.0.113.10 ".to_string(),
            "203.0.113.10".to_string(),
            String::new(),
            "2001:db8::1".to_string(),
        ]),
        vec!["203.0.113.10".to_string(), "2001:db8::1".to_string()]
    );
    assert_eq!(desensitize_ip(Some(IpBits::V4([203, 0, 113, 10]))), "203.0.113.*");
    assert_eq!(
        desensitize_ip(Some(IpBits::V6([0x2001, 0xdb8, 0, 0, 0, 0, 0, 1]))),
        "2001:db8:0:0:****:****:****:****"
    );
    assert_eq!(unique_u64s(&[3, 1, 3, 2, 1]), vec![3, 1, 2]);
}

#[test]
fn histories_are_shown_for_a_period() {
    assert_eq!(period_seconds("1d"), Some(86400));
    assert_eq!(period_seconds("7d"), Some(604800));
    assert_eq!(period_seconds("30d"), Some(2592000));
    assert_eq!(period_seconds("2d"), None);
    assert_eq!(history_since(true, Some("7d"), 1_000_000), Err(AccessError::GuestPeriod));
    assert_eq!(history_since(false, Some("7d"), 1_000_000), Ok(395_200));
    assert_eq!(history_since(true, None, 1_000_000), Ok(913_600));
    assert_eq!(history_since(true, None, 5), Ok(0));
    let servers = vec![server(1, 100, true)];
    assert_eq!(history_access(&servers, 2, None, None, 0), Err(AccessError::ServerNotFound));
    assert_eq!(history_access(&servers, 1, None, None, 0), Err(AccessError::Unauthorized));
    let owner = claims(100, 1);
    assert_eq!(history_access(&servers, 1, Some(&owner), None, 86401), Ok((0, 1)));
    assert_eq!(page_of(None, None), (25, 0));
    assert_eq!(page_of(Some(0), Some(3)), (1, 3));
    assert_eq!(page_of(Some(9999), None), (500, 0));
}

fn config_file() -> DashboardConfigFile {
    DashboardConfigFile {
        language: None,
        site_name: None,
        custom_code: None,
        custom_code_dashboard: None,
        install_host: None,
        tls: None,
        dns_servers: None,
        ignored_ip_notification: None,
        ip_change_notification_group_id: None,
        cover: None,
        web_real_ip_header: None,
        agent_real_ip_header: None,
        user_template: None,
        admin_template: None,
        enable_ip_change_notification: None,
        enable_plain_ip_in_notification: None,
        force_auth: None,
        debug: None,
        agent_secret_key: None,
        jwt_secret_key: None,
        jwt_timeout: None,
        listen_host: None,
        listen_port: None,
        trust_proxy_headers: None,
        oauth2: None,
    }
}

fn args() -> DashboardArgs {
    DashboardArgs {
        http_bind: "0.0.0.0:8008".into(),
        client_secret: None,
        agent_secret_env: None,
        jwt_secret: None,
        jwt_secret_env: None,
        jwt_timeout: None,
        site_name: None,
        debug: false,
        force_auth: false,
        trust_proxy_headers: false,
        install_host: String::new(),
    }
}

#[test]
fn dashboard_config_file_matches_upstream_keys() {
    let mut file = config_file();
    file.agent_secret_key = Some("agent-secret".into());
    file.jwt_secret_key = Some("jwt-secret".into());
    file.jwt_timeout = Some(3);
    file.listen_host = Some("127.0.0.1".into());
    file.listen_port = Some(9000);
    file.site_name = Some("Configured".into());
    file.install_host = Some("https://dash.example.com".into());
    file.tls = Some(true);
    file.force_auth = Some(true);
    file.debug = Some(true);
    file.oauth2 = Some(vec![("github".into(), provider("id"))]);
    let resolved = resolve_dashboard_config(args(), file);

    assert_eq!(resolved.client_secret, "agent-secret");
    assert_eq!(resolved.jwt_secret, "jwt-secret");
    assert_eq!(resolved.jwt_timeout, 3);
    assert_eq!(resolved.http_bind, "127.0.0.1:9000");
    assert_eq!(resolved.site_name, "Configured");
    assert_eq!(resolved.install_host, "https://dash.example.com");
    assert!(resolved.agent_tls);
    assert!(resolved.force_auth);
    assert!(resolved.debug);
    assert!(resolved.initial_settings.oauth2.iter().any(|e| e.0 == "github"));
}

#[test]
fn secrets_are_made_where_none_is_given() {
    let mut file = config_file();
    file.agent_secret_key = Some("  ".into());
    file.cover = Some(0);
    let resolved = resolve_dashboard_config(args(), file);
    assert_eq!(resolved.client_secret.len(), 32);
    assert_eq!(resolved.jwt_secret.len(), 128);
    assert_eq!(resolved.jwt_timeout, 1);
    assert_eq!(resolved.http_bind, "0.0.0.0:8008");
    assert_eq!(resolved.initial_settings.cover, 1);
    let mut file = config_file();
    file.listen_host = Some("::1".into());
    assert_eq!(config_http_bind(&file), "[::1]:8008");
    let mut given = args();
    given.http_bind = "127.0.0.1:1".into();
    given.client_secret = Some("c".into());
    assert_eq!(resolve_dashboard_config(given, file).http_bind, "127.0.0.1:1");
}

fn way(domain: &str) -> NatResource {
    NatResource {
        id: 1,
        user_id: 1,
        enabled: true,
        name: String::new(),
        server_id: 1,
        host: String::new(),
        domain: domain.into(),
        created_at: 0,
        updated_at: 0,
    }
}

#[test]
fn requests_are_passed_to_their_domain() {
    let items = vec![way("a.example.com"), way("B.example.com:8080"), way("b.example.com")];
    assert_eq!(nat_for_request(&items, Some(" A.example.com:80 ")), Some(0));
    assert_eq!(nat_for_request(&items, Some("b.example.com:8080")), Some(1));
    assert_eq!(nat_for_request(&items, Some("b.example.com:81")), Some(2));
    assert_eq!(nat_for_request(&items, Some("c.example.com")), None);
    assert_eq!(nat_for_request(&items, Some("a.example.com:x")), None);
    assert_eq!(nat_for_request(&items, Some(" ")), None);
    assert_eq!(nat_for_request(&items, None), None);
}

#[test]
fn requests_are_written_out() {
    let headers = vec![("accept".to_string(), b"*/*".to_vec())];
    let raw = nat_request_bytes("POST", "/a?b", &headers, Some("h"), b"xy");
    assert_eq!(
        String::from_utf8(raw).unwrap(),
        "POST /a?b HTTP/1.1\r\naccept: */*\r\nHost: h\r\nContent-Length: 2\r\n\r\nxy"
    );
    let headers = vec![
        ("host".to_string(), b"x".to_vec()),
        ("content-length".to_string(), b"2".to_vec()),
    ];
    let raw = nat_request_bytes("GET", "/", &headers, Some("h"), b"xy");
    assert_eq!(
        String::from_utf8(raw).unwrap(),
        "GET / HTTP/1.1\r\nhost: x\r\ncontent-length: 2\r\n\r\nxy"
    );
}

#[test]
fn answers_are_read() {
    let raw = b"HTTP/1.1 201 Created\r\nX-A: b \r\nConnection: close\r\nbad\r\nx y: z\r\n\
        X-B: \x01\r\n: none\r\n\r\nbody"
        .to_vec();
    let end = find_header_end(&raw).unwrap();
    assert_eq!(read_nat_response_head(&raw), HeadStep::Complete(end));
    let parsed = parse_nat_response(raw, end).unwrap();
    assert_eq!(parsed.status, 201);
    assert_eq!(parsed.headers, vec![("x-a".to_string(), "b".to_string())]);
    assert_eq!(parsed.body_prefix, b"body".to_vec());
    assert_eq!(find_header_end(b"abc"), None);
    assert_eq!(read_nat_response_head(b"abc"), HeadStep::ReadOn);
    assert_eq!(read_nat_response_head(&vec![b'a'; 65537]), HeadStep::TooLarge);
    let raw = b"HTTP/1.1 99 Low\r\n\r\n".to_vec();
    assert_eq!(parse_nat_response(raw, 15).unwrap_err(), PassageError::Status);
    let raw = vec![0xff, 13, 10, 13, 10];
    assert_eq!(
        parse_nat_response(raw, 1).unwrap_err().message(),
        "invalid nat response header"
    );
}

#[test]
fn real_ip_header_uses_last_valid_forwarded_ip() {
    let raw = "198.51.100.1, 203.0.113.10";
    let last = ip_text_from_header(raw);
    assert_eq!(last, Some("203.0.113.10".to_string()));
    assert_eq!(parse_ip_from_header(raw, last.clone()).unwrap(), "203.0.113.10");
    assert!(parse_ip_from_header("not an ip", None).is_err());
    let forwarded = IpHeader { raw, parsed: last };
    assert_eq!(request_ip(None, Some(forwarded)), Some("203.0.113.10".to_string()));
}

#[test]
fn the_header_of_the_proxy_comes_first() {
    let header = |raw, parsed: Option<&str>| {
        Some(IpHeader { raw, parsed: parsed.map(|ip| ip.to_string()) })
    };
    let forwarded = || header("203.0.113.10", Some("203.0.113.10"));
    assert_eq!(
        request_ip(header("192.0.2.1", Some("192.0.2.1")), forwarded()),
        Some("192.0.2.1".to_string())
    );
    assert_eq!(request_ip(header("x", None), forwarded()), Some("203.0.113.10".to_string()));
    assert_eq!(request_ip(header("x", None), None), None);
    assert_eq!(parse_ip_from_header(", ", None), Err(RealIpError::Missing));
    assert_eq!(parse_ip_from_header("x", None), Err(RealIpError::Invalid));
    assert_eq!(RealIpError::Missing.message(), "real ip header not found");
}

fn signed(claims: &str) -> String {
    let raw = serde_json::value::RawValue::from_string(claims.to_string()).unwrap();
    let key = jsonwebtoken::EncodingKey::from_secret(b"secret");
    jsonwebtoken::encode(&jsonwebtoken::Header::default(), &raw, &key).unwrap()
}

#[test]
fn claims_that_are_there_twice_are_refused() {
    let exp = unix_now() + 3600;
    let token = |more: &str| {
        signed(&format!(
            r#"{{"sub":"5", "uid":5,"username":"a\"b","role":1,{more} "exp":{exp}}}"#
        ))
    };
    let claims = decode_token("secret", &token("")).unwrap();
    assert_eq!(claims.uid, 5);
    assert_eq!(claims.username, "a\"b");
    assert_eq!(claims.role, 1);
    assert_eq!(claims.exp, exp);
    assert!(decode_token("secret", &token(r#""uid":6,"#)).is_err());
    assert!(decode_token("secret", &token(r#""\u0075id":5,"#)).is_err());
    assert!(decode_token("secret", &token(r#""role":1,"#)).is_err());
    assert!(decode_token("other", &token("")).is_err());
    let more = r#""x":{"uid":[7,"}"]},"x":1e999,"#;
    assert_eq!(decode_token("secret", &token(more)).unwrap().uid, 5);
    assert!(decode_token("secret", &signed("[1]")).is_err());
    let state = |more: &str| {
        signed(&format!(
            r#"{{"action":1,"provider":"p",{more}"state":"s","redirect_url":"u","exp":{exp}}}"#
        ))
    };
    let sent = |token: String| {
        oauth2_state_from_headers("secret", Some(&format!("nz-o2s={token}")))
    };
    assert_eq!(sent(state("")).unwrap().state, "s");
    assert!(sent(state(r#""state":"t","#)).is_none());
}

#[test]
fn members_are_told_as_they_are_written() {
    let told = read_members(r#"{ "a" : [1,{"b":2}] , "c\n":"},\"", "a":-1 }"#).unwrap();
    assert_eq!(told.len(), 3);
    assert_eq!(told[0].0, "a");
    assert!(matches!(told[0].1, Some(Json::List(_))));
    assert_eq!(told[1].0, "c\n");
    assert_eq!(only_member(&told, "c\n").and_then(Json::text), Some("},\""));
    assert!(only_member(&told, "a").is_none());
    assert!(only_member(&told, "b").is_none());
    assert!(read_members("{}").unwrap().is_empty());
    assert!(read_members("[]").is_none());
    assert!(read_members(r#"{"\ud800":1}"#).is_none());
    let claims = read_members(r#"{"sub":"1","uid":1,"username":"u","role":256,"exp":9}"#).unwrap();
    assert!(claims_from(&claims).is_none());
}
