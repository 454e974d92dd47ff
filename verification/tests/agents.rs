use std::collections::HashMap;

use nezha_dashboard::alerts::{
    advance_track, alert_snapshot, ensure_alert_cycle_transfer_stats, rule_snapshot, tick_alerts,
    AlertRuntime, AlertTrack, Outcome, RuleReading,
};
use nezha_dashboard::clock::unix_now;
use nezha_dashboard::cycle::{transfer_cycle_end, transfer_cycle_start};
use nezha_dashboard::history::{
    chart_counts, query_server_services, query_service_history, service_response_items, HistoryRow,
};
use nezha_dashboard::json::Json;
use nezha_dashboard::jsontext::parse_json;
use nezha_dashboard::model::{
    AlertRuleResource, CronResource, GeoIp, HostState, Ip, PublicServer, ServiceResource, TaskType,
};
use nezha_dashboard::moment::{add_months, parse_rfc3339, parse_time, show_time, Moment};
use nezha_dashboard::registry::{OnlineRegistry, OnlineUser};
use nezha_dashboard::reports::{
    admit_agent, agent_may_report, agent_secret, agent_secret_owner, can_report_cron_result,
    can_report_service_result, check_agent, complete_command_result, country_code, cron_result_message, csv_u64_contains, geoip_ip_string,
    geoip_lookup_text, locate, maintenance_cutoffs, pet_name, report_geo_ip, route_result,
    should_send_ip_change_notification, Admission, AgentError, CommandResult, ResultRoute, Told,
};
use nezha_dashboard::rules::{alert_check, rule_excludes_server};
use nezha_dashboard::scheduler::{
    cron_covers_server, cron_due, cron_targets, due_crons, due_services, run_is_due, service_due,
    service_server_ids, service_targets,
};
use nezha_dashboard::service::{
    complete_service_result, parse_tls_certificate_data, service_status_code,
    service_status_label, Latency, ServiceReport, ServiceWatch,
};
use nezha_dashboard::settings::DashboardSettings;
use nezha_dashboard::starts::{
    alert_sends, cron_sends, service_sends, service_start, CronStart,
};
use nezha_dashboard::transfer::{
    is_known_server_metric, record_transfer_delta, rule_value, transfer_cycle_value, RuleValue,
    TransferCycleKind,
};
use nezha_dashboard::triggers::PendingTriggers;

fn json(raw: &str) -> Json {
    parse_json(raw).unwrap()
}

fn server(id: u64, user_id: u64) -> PublicServer {
    PublicServer {
        id,
        user_id,
        uuid: String::new(),
        name: format!("server-{id}"),
        note: String::new(),
        public_note: String::new(),
        display_index: 0,
        hide_for_guest: false,
        enable_ddns: false,
        ddns_profiles: vec![],
        override_ddns_domains: vec![],
        host: None,
        state: None,
        geoip: None,
        last_active: 1000,
        prev_transfer_in_snapshot: 0,
        prev_transfer_out_snapshot: 0,
    }
}

fn cron_fixture() -> CronResource {
    CronResource {
        id: 1,
        user_id: 0,
        name: "test".into(),
        task_type: 0,
        scheduler: "0/5 * * * * * *".into(),
        command: "echo ok".into(),
        servers: vec![],
        push_successful: false,
        notification_group_id: 0,
        last_executed_at: None,
        last_result: false,
        cover: 0,
        created_at: 0,
        updated_at: 0,
    }
}

fn service(id: u64, user_id: u64, service_type: u8, cover: u8, skip: &[(u64, bool)]) -> ServiceResource {
    ServiceResource {
        id,
        user_id,
        name: "tcp".into(),
        service_type,
        target: "example.com:443".into(),
        duration: 30,
        display_index: 0,
        notify: false,
        notification_group_id: 0,
        cover,
        enable_trigger_task: false,
        enable_show_in_service: true,
        fail_trigger_tasks: vec![],
        recover_trigger_tasks: vec![],
        latency_notify: false,
        skip_servers: skip.iter().map(|(k, v)| (k.to_string(), Json::Bool(*v))).collect(),
        created_at: 0,
        updated_at: 0,
    }
}

fn alert(rules: Vec<Json>) -> AlertRuleResource {
    AlertRuleResource {
        id: 1,
        user_id: 0,
        name: "offline".into(),
        enable: Some(true),
        trigger_mode: 1,
        notification_group_id: 0,
        rules,
        fail_trigger_tasks: vec![],
        recover_trigger_tasks: vec![],
        muted_until: 0,
        created_at: 0,
        updated_at: 0,
    }
}

fn measured(within: bool, transfer: u64) -> RuleReading {
    RuleReading::Measured { within, transfer, next_update: 100 }
}

#[test]
fn detects_due_cron_from_last_execution() {
    let mut cron = cron_fixture();
    cron.last_executed_at = Some(10);
    assert!(cron_due(&cron, 15));
    assert!(!cron_due(&cron, 14));
    cron.scheduler = "nonsense".into();
    assert!(!cron_due(&cron, 15));
    assert!(run_is_due(Some(5), 5));
    assert!(!run_is_due(Some(6), 5));
    assert!(!run_is_due(None, 5));
}

#[test]
fn tasks_that_never_ran_run_in_their_second() {
    let cron = cron_fixture();
    assert!(cron_due(&cron, 15));
    assert!(!cron_due(&cron, 16));
    let mut alert_task = cron_fixture();
    alert_task.task_type = 1;
    let due = due_crons(vec![cron, alert_task], 15);
    assert_eq!(due.len(), 1);
    assert_eq!(due[0].task_type, 0);
}

#[test]
fn cron_cover_matches_upstream_semantics() {
    let mut cron = cron_fixture();
    cron.cover = 0;
    cron.servers = vec![1, 2];
    assert!(cron_covers_server(&cron, 1));
    assert!(!cron_covers_server(&cron, 3));
    cron.cover = 1;
    assert!(!cron_covers_server(&cron, 1));
    assert!(cron_covers_server(&cron, 3));
    cron.cover = 2;
    assert!(!cron_covers_server(&cron, 1));
}

#[test]
fn tick_dispatches_due_cron_to_selected_online_server() {
    let mut cron = cron_fixture();
    cron.user_id = 42;
    cron.servers = vec![1, 2];
    let servers = vec![server(1, 42), server(2, 7), server(3, 42)];
    assert_eq!(cron_targets(&cron, &servers), vec![1]);
    cron.scheduler = "0/1 * * * * * *".into();
    cron.command = "echo hi".into();
    let due = due_crons(vec![cron], unix_now());
    assert_eq!(due.len(), 1);
    let tasks = cron_sends(&due[0], &servers);
    assert_eq!(tasks.len(), 1);
    assert_eq!(tasks[0].server_id, 1);
    assert_eq!(tasks[0].id, 1);
    assert_eq!(tasks[0].task_type, TaskType::Command.as_u64());
    assert_eq!(tasks[0].data, "echo hi");
}

#[test]
fn tick_dispatches_due_service_with_service_id() {
    let watched = service(1, 0, TaskType::TcpPing.as_u64() as u8, 1, &[(1, true)]);
    let mut last = HashMap::new();
    let due = due_services(vec![watched], 100, &last);
    assert_eq!(due.len(), 1);
    let tasks = service_sends(&due[0], &[server(1, 0)], true);
    assert_eq!(tasks.len(), 1);
    assert_eq!(tasks[0].id, 1);
    assert_eq!(tasks[0].task_type, TaskType::TcpPing.as_u64());
    assert_eq!(tasks[0].data, "example.com:443");
    last.insert(1, 100);
    assert!(due_services(due, 100, &last).is_empty());
}

#[test]
fn services_of_no_probe_are_not_watched() {
    let command = service(1, 0, TaskType::Command.as_u64() as u8, 0, &[]);
    assert!(due_services(vec![command], 100, &HashMap::new()).is_empty());
}

#[test]
fn service_tick_respects_cover_selection() {
    let mut everywhere = service(1, 0, TaskType::HttpGet.as_u64() as u8, 0, &[(2, true)]);
    everywhere.target = "https://example.com".into();
    let tasks = service_sends(&everywhere, &[server(1, 0), server(2, 0)], true);
    assert_eq!(tasks.len(), 1);
    assert_eq!(tasks[0].server_id, 1);
    assert_eq!(tasks[0].task_type, TaskType::HttpGet.as_u64());
    assert_eq!(tasks[0].data, "https://example.com");
    let mut watched = service(1, 0, 1, 1, &[(1, true), (2, false)]);
    let servers = vec![server(1, 0), server(2, 0), server(3, 5)];
    assert_eq!(service_targets(&watched, &servers, true), vec![1]);
    let mut last = HashMap::new();
    assert!(service_due(&watched, 100, &last));
    last.insert(1, 80);
    assert!(!service_due(&watched, 100, &last));
    assert!(service_due(&watched, 110, &last));
    watched.duration = 5;
    assert!(!service_due(&watched, 100, &last));
}

#[test]
fn alert_tick_dispatches_trigger_task_on_incident() {
    let mut task = cron_fixture();
    task.id = 9;
    task.task_type = 1;
    task.command = "echo alert".into();
    task.cover = 2;
    let mut hot = alert(vec![json(r#"{"type":"cpu","max":50,"duration":1,"cover":0}"#)]);
    hot.name = "hot cpu".into();
    hot.fail_trigger_tasks = vec![9];
    let mut runtime =
        AlertRuntime { tracks: HashMap::new(), cycle_transfer_stats: HashMap::new() };
    let servers = vec![server(1, 0)];
    let alerts = vec![hot];
    let crons = vec![task];
    let readings = vec![vec![vec![measured(false, 0)]]];
    let actions =
        tick_alerts(&mut runtime, &alerts, &vec![true], &servers, &readings, &crons, 1000);
    assert_eq!(actions.len(), 1);
    assert_eq!(actions[0].server_id, 1);
    assert_eq!(actions[0].trigger_crons.len(), 1);
    let tasks = alert_sends(&actions[0], &crons);
    assert_eq!(tasks.len(), 1);
    assert_eq!(tasks[0].server_id, 1);
    assert_eq!(tasks[0].id, 9);
    assert_eq!(tasks[0].task_type, TaskType::Command.as_u64());
    assert_eq!(tasks[0].data, "echo alert");
    assert_eq!(actions[0].message, "[Incident] server-1 hot cpu");
    let again =
        tick_alerts(&mut runtime, &alerts, &vec![true], &servers, &readings, &crons, 1003);
    assert!(again.is_empty());
    let calm = vec![vec![vec![measured(true, 0)]]];
    let over = tick_alerts(&mut runtime, &alerts, &vec![true], &servers, &calm, &crons, 1006);
    assert_eq!(over[0].message, "[Resolved] server-1 hot cpu");
}

fn cycle_rule(max: u64, now: u64) -> Json {
    let start = show_time(Moment { secs: (now - 3600) as i64, nanos: 0 }).unwrap();
    let iso = format!("{}Z", start.replace(' ', "T"));
    json(&format!(
        r#"{{"type":"transfer_all_cycle","max":{max},"min":10,"cycle_start":"{iso}","cycle_interval":1,"cycle_unit":"hour","cover":0}}"#
    ))
}

#[test]
fn alert_tick_publishes_cycle_transfer_stats_from_runtime_sentinel() {
    let now = unix_now();
    let mut monthly = alert(vec![cycle_rule(500, now)]);
    monthly.name = "monthly traffic".into();
    let mut runtime =
        AlertRuntime { tracks: HashMap::new(), cycle_transfer_stats: HashMap::new() };
    let servers = vec![server(1, 0)];
    let reading = RuleReading::Measured { within: true, transfer: 200, next_update: now + 60 };
    tick_alerts(
        &mut runtime,
        &vec![monthly],
        &vec![true],
        &servers,
        &vec![vec![vec![reading]]],
        &vec![],
        now,
    );
    let item = runtime.cycle_transfer_stats.get(&1).unwrap();
    assert_eq!(item.name, "monthly traffic");
    assert_eq!(item.max, 500);
    assert_eq!(item.min, 10);
    assert_eq!(item.transfer.get(&1), Some(&200));
    assert!(item.next_update.contains_key(&1));
}

#[test]
fn cycle_transfer_stats_follow_alert_transfer_rules() {
    let now = unix_now();
    let mut monthly = alert(vec![cycle_rule(500, now)]);
    monthly.name = "monthly traffic".into();
    let mut stats = ensure_alert_cycle_transfer_stats(&monthly, now);
    let item = stats.as_ref().unwrap();
    assert_eq!(item.name, "monthly traffic");
    assert_eq!(item.max, 500);
    assert_eq!(item.min, 10);
    let total = transfer_cycle_value(TransferCycleKind::All, &state(130, 70), (130, 70), (130, 70));
    assert_eq!(total, 200);
    let mut checks = HashMap::new();
    let reading = RuleReading::Measured { within: true, transfer: total, next_update: now + 60 };
    let shown = server(1, 0);
    let point =
        alert_snapshot(&monthly, &shown, &vec![reading], now, &mut checks, &mut stats, None);
    assert_eq!(point, vec![true]);
    let item = stats.unwrap();
    assert_eq!(item.server_name.get(&1).unwrap(), &shown.name);
    assert_eq!(item.transfer.get(&1), Some(&200));
    assert!(item.next_update.contains_key(&1));
}

#[test]
fn cycles_follow_each_other() {
    let rule = json(
        r#"{"type":"transfer_in_cycle","cycle_start":"2024-01-31T00:00:00Z","cycle_interval":1,"cycle_unit":"month"}"#,
    );
    let start = parse_rfc3339("2024-01-31T00:00:00Z").unwrap().secs as u64;
    let end = parse_rfc3339("2024-02-29T00:00:00Z").unwrap().secs as u64;
    assert_eq!(transfer_cycle_start(&rule, start + 5), Some(start));
    assert_eq!(transfer_cycle_end(&rule, start + 5), Some(end));
}

#[test]
fn offline_rule_fails_without_thresholds_after_duration() {
    let rules = vec![json(r#"{"type":"offline","duration":2,"cover":0}"#)];
    let offline = alert(rules);
    let public = server(1, 0);
    let now = public.last_active + 7;
    let mut checks = HashMap::new();
    let mut none = None;
    let missing = vec![RuleReading::Missing];
    let first = alert_snapshot(&offline, &public, &missing, now, &mut checks, &mut none, None);
    let second = alert_snapshot(&offline, &public, &missing, now + 3, &mut checks, &mut none, None);
    assert!(!first[0]);
    assert_eq!(alert_check(&offline.rules, &vec![first]).1, true);
    assert_eq!(alert_check(&offline.rules, &vec![second.clone(), second]).1, false);
}

#[test]
fn cycle_transfer_rule_uses_stored_transfer_totals() {
    let now = unix_now();
    let rule = cycle_rule(150, now);
    let total = transfer_cycle_value(TransferCycleKind::All, &state(130, 70), (130, 70), (130, 70));
    assert_eq!(total, 200);
    let mut checks = HashMap::new();
    let mut none = None;
    let over = RuleReading::Measured { within: total <= 150, transfer: total, next_update: now + 60 };
    assert!(!rule_snapshot(&rule, 0, &server(1, 0), over, now, &mut checks, &mut none, None));
}

#[test]
fn rules_may_leave_servers_out() {
    let all_but = json(r#"{"type":"cpu","cover":0,"ignore":{"1":true}}"#);
    assert!(rule_excludes_server(&all_but, 1));
    assert!(!rule_excludes_server(&all_but, 2));
    let only = json(r#"{"type":"cpu","cover":1,"ignore":{"1":true}}"#);
    assert!(!rule_excludes_server(&only, 1));
    assert!(rule_excludes_server(&only, 2));
}

#[test]
fn an_incident_is_told_once() {
    let watched = alert(vec![json(r#"{"type":"cpu","max":1,"duration":1}"#)]);
    let mut track = AlertTrack { samples: vec![], prev: 0, checks: HashMap::new() };
    assert!(matches!(advance_track(&mut track, &watched, vec![false]), Outcome::Incident));
    assert!(matches!(advance_track(&mut track, &watched, vec![false]), Outcome::Quiet));
    assert!(matches!(advance_track(&mut track, &watched, vec![true]), Outcome::Resolved));
    assert!(matches!(advance_track(&mut track, &watched, vec![true]), Outcome::Quiet));
}

fn state(net_in_transfer: u64, net_out_transfer: u64) -> HostState {
    HostState {
        mem_used: 0,
        swap_used: 0,
        disk_used: 0,
        net_in_transfer,
        net_out_transfer,
        net_in_speed: 0,
        net_out_speed: 0,
        uptime: 0,
        tcp_conn_count: 0,
        udp_conn_count: 0,
        process_count: 0,
    }
}

/// Runs reports of counters one after the other, and adds up what is entered.
fn entered(reports: &[(u64, u64)]) -> (i64, i64) {
    let mut prev = (0, 0);
    let mut sum = (0, 0);
    for current in reports {
        let update = record_transfer_delta(prev, *current, 7300);
        if let Some((i, o)) = update.snapshot {
            prev = (i as u64, o as u64);
        }
        if let Some(entry) = update.entry {
            assert_eq!(entry.hour_start, 7200);
            sum.0 += entry.in_bytes;
            sum.1 += entry.out_bytes;
        }
    }
    sum
}

#[test]
fn state_updates_record_hourly_transfer_deltas() {
    assert_eq!(entered(&[(100, 50), (130, 70)]), (130, 70));
    assert_eq!(entered(&[(100, 50), (130, 70), (120, 60)]), (130, 70));
}

#[test]
fn agent_counter_reset_starts_new_baseline_without_phantom_delta() {
    assert_eq!(entered(&[(1_000, 500), (10, 5), (60, 25)]), (1_050, 520));
}

#[test]
fn rules_read_what_they_name() {
    assert!(matches!(
        rule_value("net_in_speed", &Some(state(1, 2)), &None),
        RuleValue::Whole(0)
    ));
    assert!(matches!(rule_value("cpu", &Some(state(1, 2)), &None), RuleValue::Cpu));
    assert!(matches!(rule_value("unknown", &Some(state(1, 2)), &None), RuleValue::Missing));
    assert!(is_known_server_metric("cpu"));
    assert!(!is_known_server_metric("not-a-metric"));
}

#[test]
fn service_results_are_authorized_and_queryable() {
    let watched = service(1, 100, 3, 1, &[(1, true), (2, true)]);
    let owner_server = server(1, 100);
    let foreign_server = server(2, 200);
    assert!(!can_report_service_result(&watched, &foreign_server, 3, false));
    assert!(can_report_service_result(&watched, &owner_server, 3, false));

    let rows = vec![HistoryRow {
        service_id: 1,
        server_id: 1,
        server_name: owner_server.name.clone(),
        up: 1,
        down: 0,
        created_at: 50,
    }];
    let history = query_service_history(1, "tcp", &rows);
    assert_eq!(history.service_name, "tcp");
    assert_eq!(history.servers.len(), 1);
    assert_eq!(history.servers[0].server_id, 1);
    assert_eq!(history.servers[0].total_up, 1);
    assert_eq!(history.servers[0].total_down, 0);

    let services = vec![watched];
    let seen = query_server_services(&services, &rows, 1, "server-1");
    assert_eq!(seen.len(), 1);
    assert_eq!(seen[0].monitor_id, 1);
    assert_eq!(seen[0].points, vec![0]);

    let items = service_response_items(&services, &rows);
    assert_eq!(items[0].service_name, "tcp");
    assert_eq!(items[0].current_up, 1);
    assert_eq!(items[0].current_down, 0);
    assert_eq!(items[0].total_up, 1);
    assert_eq!(items[0].total_down, 0);
    assert_eq!(items[0].newest, vec![0]);
    let mut up = vec![0; 30];
    up[29] = 1;
    assert_eq!(items[0].up, Some(up));
    assert_eq!(items[0].down, Some(vec![0; 30]));
}

#[test]
fn charts_show_the_newest_rows_at_the_right() {
    let rows: Vec<HistoryRow> = (0..40)
        .map(|i| HistoryRow {
            service_id: 1,
            server_id: 1,
            server_name: "server-1".into(),
            up: i + 1,
            down: i % 2,
            created_at: i,
        })
        .collect();
    let (up, down) = chart_counts(&rows, &vec![3, 7]);
    assert_eq!(up[..28], [0; 28]);
    assert_eq!(up[28..], [4, 8]);
    assert_eq!(down[28..], [1, 1]);
    let watched = service(1, 0, 1, 0, &[]);
    let silent = service(2, 0, 1, 0, &[]);
    let items = service_response_items(&vec![watched, silent], &rows);
    let up = items[0].up.as_ref().unwrap();
    assert_eq!(up.len(), 30);
    assert_eq!(up[0], 11);
    assert_eq!(up[29], 40);
    assert_eq!(items[1].up, None);
    assert_eq!(items[1].down, None);
}

#[test]
fn service_server_ids_match_cover_configuration() {
    let servers = vec![server(3, 0), server(1, 0), server(2, 0)];
    let services = vec![
        service(1, 0, 1, 0, &[(3, true)]),
        service(2, 0, 3, 1, &[(2, true), (3, false)]),
    ];
    assert_eq!(service_server_ids(&services, &servers), vec![1, 2]);
}

#[test]
fn service_result_rejects_mismatched_task_type() {
    let http = service(1, 0, 1, 1, &[(1, true)]);
    assert!(!can_report_service_result(&http, &server(1, 0), 3, true));
    assert!(can_report_service_result(&http, &server(1, 0), 1, true));
}

fn command_result(successful: bool) -> CommandResult {
    CommandResult {
        successful,
        whole_seconds: 2,
        delay: "2.500".into(),
        data: "ok".into(),
    }
}

#[test]
fn cron_results_are_authorized_by_cover_and_owner() {
    let mut cron = cron_fixture();
    cron.user_id = 100;
    cron.name = "uptime".into();
    cron.servers = vec![1, 2];
    let owner_server = server(1, 100);
    let foreign_server = server(2, 200);
    let result = command_result(true);
    let refused =
        complete_command_result(Some(&cron), Some(&foreign_server), false, false, &result, 10);
    assert!(refused.is_none());
    let effect =
        complete_command_result(Some(&cron), Some(&owner_server), false, false, &result, 10)
            .unwrap();
    assert!(effect.last_result);
    assert_eq!(effect.executed_at, 8);
    assert!(effect.message.is_none());
    let failed = command_result(false);
    let effect =
        complete_command_result(Some(&cron), Some(&owner_server), false, false, &failed, 1)
            .unwrap();
    assert_eq!(effect.executed_at, 0);
    assert_eq!(
        effect.message.unwrap().1,
        "[Scheduled Task Executed Failed] uptime, 2.500s\nok"
    );
    assert!(complete_command_result(None, Some(&owner_server), true, true, &result, 1).is_none());
}

#[test]
fn alert_trigger_cron_results_require_reserved_authorization() {
    let mut cron = cron_fixture();
    cron.cover = 2;
    assert!(!can_report_cron_result(&cron, &server(1, 0), true, false));
    assert!(can_report_cron_result(&cron, &server(1, 0), true, true));

    let mut pending = PendingTriggers::new();
    assert!(!pending.consume_alert_trigger_result(1, 7, 1000));
    pending.reserve_alert_trigger_result(1, 7, 1000);
    pending.reserve_alert_trigger_result(1, 7, 1000);
    pending.reserve_alert_trigger_result(1, 8, 1000);
    assert!(pending.consume_alert_trigger_result(1, 7, 2000));
    pending.revoke_alert_trigger_result(1, 7);
    assert!(!pending.consume_alert_trigger_result(1, 7, 2000));
    assert!(!pending.consume_alert_trigger_result(1, 8, 1000 + 86400));
}

#[test]
fn results_go_where_they_belong() {
    assert_eq!(route_result(TaskType::ReportConfig.as_u64()), ResultRoute::Config);
    assert_eq!(route_result(TaskType::Command.as_u64()), ResultRoute::Command);
    assert_eq!(route_result(3), ResultRoute::Service);
    assert_eq!(route_result(TaskType::Keepalive.as_u64()), ResultRoute::Ignored);
    assert_eq!(
        cron_result_message("job", true, "0.000", "out"),
        "[Scheduled Task Executed Successfully] job, 0.000s\nout"
    );
}

#[test]
fn agent_secret_owner_controls_uuid_registration_and_updates() {
    assert_eq!(agent_secret_owner("global", "global", None), Some(0));
    assert_eq!(agent_secret_owner("alice", "global", Some(5)), Some(5));
    assert_eq!(agent_secret_owner("bad", "global", None), None);
    assert!(agent_may_report(5, 5));
    assert!(!agent_may_report(6, 5));
    assert!(agent_may_report(0, 5));
    assert_eq!(pet_name("0123456789abcdef"), "server-01234567");
}

#[test]
fn an_agent_is_entered_once() {
    assert_eq!(admit_agent(5, None), Admission::Entered);
    assert_eq!(admit_agent(5, Some(5)), Admission::Known);
    assert_eq!(admit_agent(6, Some(5)), Admission::Refused);
    assert_eq!(admit_agent(0, Some(5)), Admission::Known);
}

#[test]
fn online_user_registry_lists_and_blocks_ips() {
    let mut registry = OnlineRegistry::new();
    registry.add_online_user(
        "b".to_string(),
        OnlineUser { user_id: 2, connected_at: 20, ip: "203.0.113.20".to_string() },
    );
    registry.add_online_user(
        "a".to_string(),
        OnlineUser { user_id: 1, connected_at: 10, ip: "203.0.113.10".to_string() },
    );
    let (users, total) = registry.list_online_users(25, 0);
    assert_eq!(total, 2);
    assert_eq!(users[0].user_id, 1);
    assert_eq!(registry.online_user_count(), 2);
    let (users, total) = registry.list_online_users(1, 1);
    assert_eq!((users.len(), users[0].user_id, total), (1, 2, 2));
    assert!(registry.list_online_users(1, 9).0.is_empty());

    registry.block_online_ips(&["203.0.113.10".to_string()]);
    assert!(registry.online_ip_is_blocked("203.0.113.10"));
    let (users, total) = registry.list_online_users(25, 0);
    assert_eq!(total, 1);
    assert_eq!(users[0].user_id, 2);
    registry.remove_online_user("b");
    assert_eq!(registry.online_user_count(), 0);
}

#[test]
fn ip_change_notification_respects_cover_and_ip_delta() {
    let mut settings = DashboardSettings::default();
    settings.enable_ip_change_notification = true;
    settings.ip_change_notification_group_id = 3;
    settings.cover = 0;
    settings.ignored_ip_notification = "1, 2".to_string();
    let told = |settings: &DashboardSettings, id: u64, a: &str, b: &str| {
        should_send_ip_change_notification(settings, id, a, b)
    };
    assert!(told(&settings, 3, "203.0.113.10", "203.0.113.11"));
    assert!(!told(&settings, 2, "203.0.113.10", "203.0.113.11"));
    assert!(!told(&settings, 3, "203.0.113.10", "203.0.113.10"));
    assert!(!told(&settings, 3, "", "203.0.113.10"));
    settings.cover = 1;
    assert!(told(&settings, 2, "203.0.113.10", "203.0.113.11"));
    assert!(!told(&settings, 3, "203.0.113.10", "203.0.113.11"));
    assert!(csv_u64_contains("1, 2", 2));
    assert!(!csv_u64_contains("12", 2));

    let mut geoip = GeoIp {
        use6: false,
        ip: Some(Ip { ipv4: "203.0.113.10".into(), ipv6: "2001:db8::1".into() }),
        country_code: String::new(),
        dashboard_boot_time: 0,
    };
    assert_eq!(geoip_ip_string(&geoip), "203.0.113.10/2001:db8::1");
    assert_eq!(geoip_lookup_text(&geoip), Some("203.0.113.10".to_string()));
    geoip.use6 = true;
    assert_eq!(geoip_lookup_text(&geoip), Some("2001:db8::1".to_string()));

    let effect = report_geo_ip(&settings, 2, true, None, &geoip);
    assert!(effect.notification.is_none());
    assert!(effect.update_ddns);
    assert_eq!(effect.ipv4, "203.0.113.10");
    let before = GeoIp {
        use6: false,
        ip: Some(Ip { ipv4: "203.0.113.9".into(), ipv6: String::new() }),
        country_code: String::new(),
        dashboard_boot_time: 0,
    };
    let effect = report_geo_ip(&settings, 2, true, Some(&before), &geoip);
    let (group, message) = effect.notification.unwrap();
    assert_eq!(group, 3);
    assert_eq!(
        message,
        "[IP Changed] server 2: 203.0.113.9 -> 203.0.113.10/2001:db8::1"
    );
    let located = locate(geoip, 77, true, country_code(Some(" US "), Some("NA")));
    assert_eq!(located.country_code, "us");
    assert_eq!(located.dashboard_boot_time, 77);
    assert_eq!(country_code(None, Some("EU")), Some("eu".to_string()));
    assert_eq!(country_code(Some(" "), Some("EU")), None);
}

#[test]
fn maintenance_keeps_what_is_new() {
    let cutoffs = maintenance_cutoffs(10_000_000_000, 10_000_000);
    assert_eq!(cutoffs.metrics_ms, 7_408_000_000);
    assert_eq!(cutoffs.history_s, 7_408_000);
    assert_eq!(cutoffs.transfers_s, 2_224_000);
    assert_eq!(cutoffs.waf_s, 7_408_000);
    assert_eq!(maintenance_cutoffs(5, 5).history_s, 0);
}

#[test]
fn services_are_watched() {
    assert_eq!(service_status_code(0), 1);
    assert_eq!(service_status_code(96), 2);
    assert_eq!(service_status_code(81), 3);
    assert_eq!(service_status_code(80), 4);
    assert_eq!(service_status_label(4), "Down");
    let mut watched = service(1, 0, 3, 0, &[]);
    watched.notify = true;
    let mut watch = ServiceWatch::new();
    let servers = vec![server(1, 0)];
    let now = Moment { secs: 1_700_000_000, nanos: 0 };
    let mut told = 0;
    for i in 0..60 {
        let report = ServiceReport { successful: i < 30, data: "down".into() };
        let effects = complete_service_result(
            &mut watch,
            &watched,
            &report,
            &Latency::Within,
            &servers,
            1,
            true,
            &vec![],
            now,
        );
        told += effects.notifications.len();
    }
    assert!(told > 0);
}

#[test]
fn certificates_tell_when_they_end() {
    let (issuer, expires) =
        parse_tls_certificate_data("R3|2024-01-02 03:04:05 +0000 UTC").unwrap();
    assert_eq!(issuer, "R3");
    assert_eq!(expires.secs, 1_704_164_645);
    assert!(parse_tls_certificate_data("no certificate").is_none());
    assert_eq!(show_time(expires), Some("2024-01-02 03:04:05".to_string()));
    assert_eq!(
        parse_time("2024-01-02 03:04:05 +0100", "%Y-%m-%d %H:%M:%S %z").unwrap().secs,
        1_704_161_045
    );
    let later = add_months(Moment { secs: 1_706_659_200, nanos: 0 }, 1).unwrap();
    assert_eq!(show_time(later), Some("2024-02-29 00:00:00".to_string()));
}

#[test]
fn failing_alerts_send_their_task_again_in_the_mode_that_always_triggers() {
    let mut task = cron_fixture();
    task.id = 9;
    task.cover = 2;
    let crons = vec![task];
    for (mode, sent) in [(0, 4), (1, 1)] {
        let mut hot = alert(vec![json(r#"{"type":"cpu","max":50,"duration":1,"cover":0}"#)]);
        hot.trigger_mode = mode;
        hot.fail_trigger_tasks = vec![9];
        let alerts = vec![hot];
        let mut runtime =
            AlertRuntime { tracks: HashMap::new(), cycle_transfer_stats: HashMap::new() };
        let servers = vec![server(1, 0)];
        let readings = vec![vec![vec![measured(false, 0)]]];
        let mut tasks = 0;
        for now in [1000, 1003, 1006, 1009] {
            let actions =
                tick_alerts(&mut runtime, &alerts, &vec![true], &servers, &readings, &crons, now);
            for action in &actions {
                tasks += alert_sends(action, &crons).len();
            }
        }
        assert_eq!(tasks, sent);
    }
}

#[test]
fn services_start_tasks_there_or_as_scheduled() {
    let mut task = cron_fixture();
    assert!(matches!(service_start(&task, 7), CronStart::AsScheduled));
    task.cover = 2;
    match service_start(&task, 7) {
        CronStart::There(sent) => {
            assert_eq!(sent.server_id, 7);
            assert_eq!(sent.id, 1);
            assert_eq!(sent.data, "echo ok");
        }
        CronStart::AsScheduled => panic!("it waits for alerts"),
    }
}

#[test]
fn agents_are_refused_in_order() {
    let uuid = "0123456789ABCDEF0123456789abcdef";
    let hyphens = "01234567-89ab-cdef-0123-456789abcdef";
    let (secret, number) = (Told::Text(" secret "), Told::Text(uuid));
    assert_eq!(agent_secret(secret), Ok("secret".to_string()));
    assert_eq!(check_agent(secret, Some(5), number), Ok((5, hyphens.to_string())));
    for missing in [Told::Nothing, Told::Text("  ")] {
        assert_eq!(agent_secret(missing), Err(AgentError::MissingSecret));
        assert_eq!(
            check_agent(missing, None, Told::Nothing),
            Err(AgentError::MissingSecret)
        );
    }
    assert_eq!(agent_secret(Told::Unreadable), Err(AgentError::InvalidSecret));
    assert_eq!(check_agent(secret, None, Told::Nothing), Err(AgentError::InvalidSecret));
    assert_eq!(check_agent(secret, Some(5), Told::Nothing), Err(AgentError::MissingUuid));
    assert_eq!(check_agent(secret, Some(5), Told::Unreadable), Err(AgentError::InvalidUuid));
    assert_eq!(check_agent(secret, Some(5), Told::Text("x")), Err(AgentError::InvalidUuid));
    assert_eq!(AgentError::InvalidUuid.message(), "invalid client_uuid");
}
