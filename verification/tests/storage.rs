use nezha_dashboard::convert::{i64_to_u64, opt_i64_to_bool, u64_to_i64_saturating, wrap_i64};
use nezha_dashboard::decimal::{parse_u64, to_decimal};
use nezha_dashboard::encode::{bytes_hex, percent_encode, percent_encode_form};
use nezha_dashboard::ip::{ip_to_binary, stored_addresses, IpBits};
use nezha_dashboard::json::Json;
use nezha_dashboard::jsontext::{json_escape, json_string_map, parse_json, MapError};
use nezha_dashboard::model::{is_service_monitor_task, TaskType};
use nezha_dashboard::records::{
    alert_rule_input, cron_input, ddns_input, nat_input, notification_input, server_input,
    service_input, user_from_row, waf_from_row,
};
use nezha_dashboard::search::{contains, join, replace, split, split_tidy};
use nezha_dashboard::sorting::sort_texts;
use nezha_dashboard::text::{eq_ignore_ascii_case, to_ascii_lowercase, trim, trim_end_matches};
use nezha_dashboard::users::{
    authenticate_user, bind_oauth2, create_user, ensure_admin, generate_secret, generated_secret,
    reset_admin_password, unbind_oauth2, update_profile, user_is_admin, NewUser, UserError,
    UserRow,
};
use nezha_dashboard::waf::{block_count, page_limit, waf_block_active, waf_block_until};

fn json(raw: &str) -> Json {
    parse_json(raw).unwrap()
}

fn row(id: i64, user: NewUser) -> UserRow {
    UserRow {
        id,
        username: user.username,
        password: user.password,
        role: user.role as i64,
        agent_secret: user.agent_secret,
        reject_password: user.reject_password as i64,
    }
}

#[test]
fn bootstrap_admin_can_login() {
    let admin = ensure_admin(false, "admin", "secret").unwrap().unwrap();
    assert_eq!(admin.agent_secret.len(), 32);
    let hash = admin.password.clone();
    let user = authenticate_user(Some(row(1, admin)), "secret").unwrap();
    assert_eq!(user.username, "admin");
    assert_eq!(user.role, 0);
    let stored = UserRow {
        id: 1,
        username: "admin".into(),
        password: hash.clone(),
        role: 0,
        agent_secret: String::new(),
        reject_password: 0,
    };
    assert!(authenticate_user(Some(stored), "bad").is_none());
    let switched_off = UserRow {
        id: 1,
        username: "admin".into(),
        password: hash,
        role: 0,
        agent_secret: String::new(),
        reject_password: 1,
    };
    assert!(authenticate_user(Some(switched_off), "secret").is_none());
    assert!(authenticate_user(None, "secret").is_none());
}

#[test]
fn bootstrap_admin_does_not_overwrite_existing_password() {
    let admin = ensure_admin(false, "admin", "secret").unwrap().unwrap();
    assert!(ensure_admin(true, "admin", "changed").is_none());
    let stored = |password: &str| UserRow {
        id: 1,
        username: "admin".into(),
        password: password.into(),
        role: 0,
        agent_secret: String::new(),
        reject_password: 0,
    };
    assert!(authenticate_user(Some(stored(&admin.password)), "secret").is_some());
    assert!(authenticate_user(Some(stored(&admin.password)), "changed").is_none());
}

#[test]
fn reset_admin_password_updates_existing_admin() {
    let changed = reset_admin_password("admin", "changed").unwrap();
    let user = authenticate_user(Some(row(1, changed)), "changed").unwrap();
    assert_eq!(user.username, "admin");
    assert_eq!(user.role, 0);
    let changed = reset_admin_password("admin", "changed").unwrap();
    assert!(authenticate_user(Some(row(1, changed)), "secret").is_none());
}

#[test]
fn oauth2_bindings_drive_profile_and_unbind_guard() {
    assert_eq!(
        bind_oauth2("GitHub", "open-1"),
        Ok(("github".to_string(), "open-1".to_string()))
    );
    let user = create_user("alice", "password", 1).unwrap();
    let change = update_profile(&user.password, "password", "alice", "password2", true, 1).unwrap();
    assert!(change.reject_password);
    assert!(unbind_oauth2(true, 1).is_err());
    assert!(unbind_oauth2(true, 2).is_ok());
    assert!(unbind_oauth2(false, 1).is_ok());
}

#[test]
fn accounts_that_cannot_be_are_refused() {
    assert_eq!(create_user("", "password", 1).err(), Some(UserError::EmptyUsername));
    assert_eq!(create_user("a", "short", 1).err(), Some(UserError::ShortPassword));
    assert_eq!(create_user("a", "password", 7).err(), Some(UserError::InvalidRole));
    let user = create_user("alice", "password", 1).unwrap();
    assert_eq!(
        update_profile(&user.password, "wrong", "alice", "password2", false, 0).err(),
        Some(UserError::IncorrectPassword)
    );
    assert_eq!(
        update_profile(&user.password, "password", "alice", "password2", true, 0).err(),
        Some(UserError::NoBindings)
    );
    assert_eq!(bind_oauth2(" ", "x").err(), Some(UserError::EmptyProvider));
    assert_eq!(bind_oauth2("x", "").err(), Some(UserError::EmptyOpenId));
    assert!(!UserError::NotPermitted.message().is_empty());
    assert!(user_is_admin(0, None));
    assert!(user_is_admin(5, Some(0)));
    assert!(!user_is_admin(5, Some(1)));
    assert!(!user_is_admin(5, None));
}

#[test]
fn secrets_are_random() {
    assert_ne!(generate_secret(), generate_secret());
    let secret = generated_secret(70);
    assert_eq!(secret.len(), 70);
    assert!(secret.chars().all(|c| c.is_ascii_hexdigit()));
}

#[test]
fn waf_records_page_and_delete_by_ip() {
    let first = block_count(None, 1);
    assert_eq!(first, 1);
    let second = block_count(Some(first), 1);
    assert_eq!(second, 2);
    assert_eq!(block_count(None, 4), 99_999);
    assert!(waf_block_active(second, Some(1000), 1000));
    assert!(!waf_block_active(0, None, 1000));
    assert_eq!(waf_block_until(2, 1000), 1016);
    assert_eq!(waf_block_until(1, 1000), 1003);
    assert_eq!(waf_block_until(u64::MAX, 1000), u64::MAX);
    assert_eq!(page_limit(0), 1);
    assert_eq!(page_limit(25), 25);
    assert_eq!(page_limit(501), 500);
    let record = waf_from_row("203.0.113.10".into(), -126, 1, 1000, 2);
    assert_eq!(record.block_identifier, -126);
    assert_eq!(record.count, 2);
    let ip = IpBits::V4([203, 0, 113, 10]);
    assert_eq!(stored_addresses(&[Some(ip), Some(ip), None]), vec![ip_to_binary(ip)]);
    let other = IpBits::V6([0x2001, 0xdb8, 0, 0, 0, 0, 0, 1]);
    assert_eq!(
        stored_addresses(&[None, Some(other), Some(ip), Some(other)]),
        vec![ip_to_binary(other), ip_to_binary(ip)]
    );
}

#[test]
fn dashboard_crud_resources_roundtrip() {
    let input = notification_input(&json(
        r#"{"name":"hook","url":" https://example.com ","request_method":2,"request_type":1,"verify_tls":true}"#,
    ));
    assert_eq!(input.name, "hook");
    assert_eq!(input.request_method, 2);
    let cron = cron_input(&json(
        r#"{"name":"job","scheduler":"0 0 * * * *","command":"uptime","servers":[1,"x",2],"cover":1}"#,
    ));
    assert_eq!(cron.name, "job");
    assert_eq!(cron.servers, vec![1, 2]);
    assert_eq!(cron.cover, 1);
    let service = service_input(&json(
        r#"{"name":"http","type":1,"target":" https://example.com ","duration":30}"#,
    ));
    assert_eq!(service.service_type, 1);
    assert_eq!(service.target, "https://example.com");
    assert_eq!(service.duration, 30);
    let alert = alert_rule_input(&json(r#"{"name":"cpu","enable":true,"rules":[{"type":"cpu"}]}"#));
    assert_eq!(alert.name, "cpu");
    let nat = nat_input(&json(r#"{"name":"n","server_id":3,"host":"h","domain":"d"}"#));
    assert_eq!(nat.server_id, 3);
    let server = server_input(&json(r#"{"name":"s","hide_for_guest":true}"#));
    assert_eq!(server.name, "s");
    assert!(ddns_input(&json(r#"{"name":"d","max_retries":3}"#)).is_some());
    assert!(ddns_input(&json(r#"{"name":"d","max_retries":99}"#)).is_none());
    let user = user_from_row(-1, "u".into(), 256, "s".into(), 1, 5, 6);
    assert_eq!(user.id, 0);
    assert_eq!(user.role, 0);
    assert!(user.reject_password);
}

#[test]
fn negative_numbers_load_as_zero() {
    assert_eq!(i64_to_u64(-5), 0);
    assert_eq!(i64_to_u64(5), 5);
    assert_eq!(u64_to_i64_saturating(u64::MAX), i64::MAX);
    assert_eq!(wrap_i64(u64::MAX), -1);
    assert_eq!(opt_i64_to_bool(Some(2)), Some(true));
    assert_eq!(opt_i64_to_bool(None), None);
}

#[test]
fn numbers_are_written_and_read() {
    assert_eq!(to_decimal(0), "0");
    assert_eq!(to_decimal(u64::MAX), "18446744073709551615");
    assert_eq!(parse_u64("18446744073709551615"), Some(u64::MAX));
    assert_eq!(parse_u64("18446744073709551616"), None);
    assert_eq!(parse_u64("+7"), Some(7));
    assert_eq!(parse_u64(""), None);
    assert_eq!(parse_u64("-1"), None);
    assert_eq!(bytes_hex(&[0, 171, 255]), "00abff");
    assert_eq!(percent_encode("a b/ä"), "a%20b%2F%C3%A4");
    assert_eq!(percent_encode_form("a b"), "a+b");
}

#[test]
fn json_is_read_and_written() {
    assert!(parse_json("{").is_none());
    assert!(matches!(json("[1, -2, 1.5, null]"), Json::List(v) if v.len() == 4));
    assert_eq!(json_escape("a\"\n"), "a\\\"\\n");
    assert_eq!(
        json_string_map(r#"{"b":1,"a":"x"}"#).unwrap(),
        vec![("a".to_string(), "x".to_string()), ("b".to_string(), "1".to_string())]
    );
    assert_eq!(json_string_map("[]"), Err(MapError::NotObject));
    assert_eq!(json_string_map("x"), Err(MapError::NotJson));
}

#[test]
fn texts_are_taken_apart_and_put_together() {
    assert_eq!(trim(" \t a b \u{3000}"), "a b");
    assert_eq!(trim_end_matches("a//", "/"), "a");
    assert_eq!(to_ascii_lowercase("AbÄ"), "abÄ");
    assert!(eq_ignore_ascii_case("Ab", "aB"));
    assert_eq!(split("a,,b", ','), vec!["a", "", "b"]);
    assert_eq!(split_tidy(" a ,, b", ','), vec!["a", "b"]);
    assert_eq!(join(&["a".to_string(), "b".to_string()], ", "), "a, b");
    assert!(contains("abc", "bc"));
    assert!(contains("abc", ""));
    assert_eq!(replace("aaa", "aa", "b"), "ba");
    assert_eq!(replace("ab", "", "-"), "-a-b-");
    assert_eq!(
        sort_texts(&["b".to_string(), "a".to_string(), "ab".to_string(), "B".to_string()]),
        vec!["B", "a", "ab", "b"]
    );
}

#[test]
fn tasks_have_their_numbers() {
    for n in 0..20 {
        if let Some(t) = TaskType::from_u64(n) {
            assert_eq!(t.as_u64(), n);
        }
    }
    assert!(is_service_monitor_task(1));
    assert!(!is_service_monitor_task(4));
}
