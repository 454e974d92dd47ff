//! From request bodies to what is stored, and from stored rows to records.
use vstd::prelude::*;

use crate::{convert, json, search, text};
use crate::convert::{i64_to_u64, opt_i64_to_bool};
use crate::json::{
    Json, bool_i64, i64_field, string_field, string_list_field, trimmed_field, u64_field,
    u64_list_field, u8_field,
};
use crate::model::{
    AlertRuleResource, CronResource, DdnsResource, GeoIp, Host, HostState, NamedResource,
    NatResource, NotificationResource, PublicServer, ServiceResource, TransferResource,
    UserResource, WafResource,
};
use crate::text::same;

verus! {

/// The low 32 bits of `n`, read as a signed number.
pub open spec fn low32(n: i64) -> int {
    let bits = n & 0xffff_ffff;
    if bits < 0x8000_0000 {
        bits as int
    } else {
        bits - 0x1_0000_0000
    }
}

/// The low 32 bits of `n`, read as a signed number.
pub fn low_i32(n: i64) -> (r: i32)
    ensures
        r == low32(n),
{
    proof {
        assert(n as i32 == if (n & 0xffff_ffff) < 0x8000_0000 {
            (n & 0xffff_ffff) as int
        } else {
            (n & 0xffff_ffff) - 0x1_0000_0000
        }) by (bit_vector);
    }
    #[verifier::truncate]
    let r = n as i32;
    r
}

/// A number smaller than 2^31 either way is its own low half.
pub proof fn small_numbers_keep_their_value(n: i64)
    requires
        -0x8000_0000 <= n < 0x8000_0000,
    ensures
        low32(n) == n,
{
    assert((if (n & 0xffff_ffff) < 0x8000_0000 {
        (n & 0xffff_ffff) as int
    } else {
        (n & 0xffff_ffff) - 0x1_0000_0000
    }) == n) by (bit_vector)
        requires
            -0x8000_0000 <= n < 0x8000_0000,
    ;
}

/// `n` as a number of eight bits.
pub open spec fn low8(n: i64) -> int {
    convert::floored(n as int) % 256
}

fn low_u8(n: i64) -> (r: u8)
    ensures
        r == low8(n),
{
    (i64_to_u64(n) % 256) as u8
}

/// The truth value of a member, where `true` is the only truth.
pub open spec fn truth(body: Json, key: Seq<char>) -> bool {
    json::as_bool(json::member(body, key)) == Some(true)
}

fn true_field(body: &Json, key: &str) -> (r: bool)
    ensures
        r == truth(*body, key@),
{
    bool_i64(body, key) == 1
}

fn opt_bool_field(body: &Json, key: &str) -> (r: Option<bool>)
    ensures
        r == json::as_bool(json::member(*body, key@)),
{
    match body.get(key) {
        Some(v) => v.boolean(),
        None => None,
    }
}

/// What is stored of a server when it is edited.
pub struct ServerInput {
    pub name: String,
    pub note: String,
    pub public_note: String,
    pub display_index: i32,
    pub hide_for_guest: bool,
    pub enable_ddns: bool,
    pub ddns_profiles: Vec<u64>,
}

/// Whether `r` is what is stored of what `body` asks for.
pub open spec fn is_server_input(r: ServerInput, body: Json) -> bool {
    &&& r.name@ == json::text_member(body, "name"@)
    &&& r.note@ == json::text_member(body, "note"@)
    &&& r.public_note@ == json::text_member(body, "public_note"@)
    &&& r.display_index == low32(json::i64_member(body, "display_index"@) as i64)
    &&& r.hide_for_guest == truth(body, "hide_for_guest"@)
    &&& r.enable_ddns == truth(body, "enable_ddns"@)
    &&& r.ddns_profiles@ == json::u64_list_member(body, "ddns_profiles"@)
}

/// What is stored of a server when it is edited.
pub fn server_input(body: &Json) -> (r: ServerInput)
    ensures
        is_server_input(r, *body),
{
    ServerInput {
        name: string_field(body, "name"),
        note: string_field(body, "note"),
        public_note: string_field(body, "public_note"),
        display_index: low_i32(i64_field(body, "display_index")),
        hide_for_guest: true_field(body, "hide_for_guest"),
        enable_ddns: true_field(body, "enable_ddns"),
        ddns_profiles: u64_list_field(body, "ddns_profiles"),
    }
}

/// What is stored of a notification.
pub struct NotificationInput {
    pub name: String,
    pub url: String,
    pub request_method: u8,
    pub request_type: u8,
    pub request_header: String,
    pub request_body: String,
    pub verify_tls: Option<bool>,
    pub format_metric_units: Option<bool>,
    pub skip_check: Option<bool>,
}

/// Whether `r` is what is stored of what `body` asks for.
pub open spec fn is_notification_input(r: NotificationInput, body: Json) -> bool {
    &&& r.name@ == json::text_member(body, "name"@)
    &&& r.url@ == json::text_member(body, "url"@)
    &&& r.request_method == json::u64_member(body, "request_method"@) % 256
    &&& r.request_type == json::u64_member(body, "request_type"@) % 256
    &&& r.request_header@ == json::text_member(body, "request_header"@)
    &&& r.request_body@ == json::text_member(body, "request_body"@)
    &&& r.verify_tls == json::as_bool(json::member(body, "verify_tls"@))
    &&& r.format_metric_units == json::as_bool(json::member(body, "format_metric_units"@))
    &&& r.skip_check == json::as_bool(json::member(body, "skip_check"@))
}

/// What is stored of a notification.
pub fn notification_input(body: &Json) -> (r: NotificationInput)
    ensures
        is_notification_input(r, *body),
{
    NotificationInput {
        name: string_field(body, "name"),
        url: string_field(body, "url"),
        request_method: u8_field(body, "request_method"),
        request_type: u8_field(body, "request_type"),
        request_header: string_field(body, "request_header"),
        request_body: string_field(body, "request_body"),
        verify_tls: opt_bool_field(body, "verify_tls"),
        format_metric_units: opt_bool_field(body, "format_metric_units"),
        skip_check: opt_bool_field(body, "skip_check"),
    }
}

/// What is stored of a scheduled task.
pub struct CronInput {
    pub name: String,
    pub task_type: u8,
    pub scheduler: String,
    pub command: String,
    pub servers: Vec<u64>,
    pub push_successful: bool,
    pub notification_group_id: u64,
    pub cover: u8,
}

/// Whether `r` is what is stored of what `body` asks for.
pub open spec fn is_cron_input(r: CronInput, body: Json) -> bool {
    &&& r.name@ == json::text_member(body, "name"@)
    &&& r.task_type == json::u64_member(body, "task_type"@) % 256
    &&& r.scheduler@ == json::text_member(body, "scheduler"@)
    &&& r.command@ == json::text_member(body, "command"@)
    &&& r.servers@ == json::u64_list_member(body, "servers"@)
    &&& r.push_successful == truth(body, "push_successful"@)
    &&& r.notification_group_id == json::u64_member(body, "notification_group_id"@)
    &&& r.cover == json::u64_member(body, "cover"@) % 256
}

/// What is stored of a scheduled task.
pub fn cron_input(body: &Json) -> (r: CronInput)
    ensures
        is_cron_input(r, *body),
{
    CronInput {
        name: string_field(body, "name"),
        task_type: u8_field(body, "task_type"),
        scheduler: string_field(body, "scheduler"),
        command: string_field(body, "command"),
        servers: u64_list_field(body, "servers"),
        push_successful: true_field(body, "push_successful"),
        notification_group_id: u64_field(body, "notification_group_id"),
        cover: u8_field(body, "cover"),
    }
}

/// What is stored of a forwarding.
pub struct NatInput {
    pub enabled: bool,
    pub name: String,
    pub server_id: u64,
    pub host: String,
    pub domain: String,
}

/// Whether `r` is what is stored of what `body` asks for.
pub open spec fn is_nat_input(r: NatInput, body: Json) -> bool {
    &&& r.enabled == truth(body, "enabled"@)
    &&& r.name@ == json::text_member(body, "name"@)
    &&& r.server_id == json::u64_member(body, "server_id"@)
    &&& r.host@ == json::text_member(body, "host"@)
    &&& r.domain@ == json::text_member(body, "domain"@)
}

/// What is stored of a forwarding.
pub fn nat_input(body: &Json) -> (r: NatInput)
    ensures
        is_nat_input(r, *body),
{
    NatInput {
        enabled: true_field(body, "enabled"),
        name: string_field(body, "name"),
        server_id: u64_field(body, "server_id"),
        host: string_field(body, "host"),
        domain: string_field(body, "domain"),
    }
}

/// What is stored of a watched service; its latency bounds come beside it.
pub struct ServiceInput {
    pub name: String,
    pub service_type: u8,
    pub target: String,
    pub duration: u64,
    pub display_index: i64,
    pub notify: bool,
    pub notification_group_id: u64,
    pub cover: u8,
    pub enable_trigger_task: bool,
    pub enable_show_in_service: bool,
    pub fail_trigger_tasks: Vec<u64>,
    pub recover_trigger_tasks: Vec<u64>,
    pub latency_notify: bool,
}

/// Whether `r` is what is stored of what `body` asks for.
pub open spec fn is_service_input(r: ServiceInput, body: Json) -> bool {
    &&& r.name@ == json::text_member(body, "name"@)
    &&& r.service_type == json::u64_member(body, "type"@) % 256
    &&& r.target@ == text::trimmed(json::text_member(body, "target"@))
    &&& r.duration == json::u64_member(body, "duration"@)
    &&& r.display_index == json::i64_member(body, "display_index"@)
    &&& r.notify == truth(body, "notify"@)
    &&& r.notification_group_id == json::u64_member(body, "notification_group_id"@)
    &&& r.cover == json::u64_member(body, "cover"@) % 256
    &&& r.enable_trigger_task == truth(body, "enable_trigger_task"@)
    &&& r.enable_show_in_service == truth(body, "enable_show_in_service"@)
    &&& r.fail_trigger_tasks@ == json::u64_list_member(body, "fail_trigger_tasks"@)
    &&& r.recover_trigger_tasks@ == json::u64_list_member(body, "recover_trigger_tasks"@)
    &&& r.latency_notify == truth(body, "latency_notify"@)
}

/// What is stored of a watched service. Its target loses the white space at
/// its ends.
pub fn service_input(body: &Json) -> (r: ServiceInput)
    ensures
        is_service_input(r, *body),
{
    ServiceInput {
        name: string_field(body, "name"),
        service_type: u8_field(body, "type"),
        target: trimmed_field(body, "target"),
        duration: u64_field(body, "duration"),
        display_index: i64_field(body, "display_index"),
        notify: true_field(body, "notify"),
        notification_group_id: u64_field(body, "notification_group_id"),
        cover: u8_field(body, "cover"),
        enable_trigger_task: true_field(body, "enable_trigger_task"),
        enable_show_in_service: true_field(body, "enable_show_in_service"),
        fail_trigger_tasks: u64_list_field(body, "fail_trigger_tasks"),
        recover_trigger_tasks: u64_list_field(body, "recover_trigger_tasks"),
        latency_notify: true_field(body, "latency_notify"),
    }
}

/// The tasks of a service as they are stored beside its lists: its
/// `trigger_tasks`, or else its `fail_trigger_tasks`.
pub fn stored_trigger_tasks(body: &Json) -> (r: Option<&Json>)
    ensures
        r.is_some() == (json::member(*body, "trigger_tasks"@) is Some || json::member(
            *body,
            "fail_trigger_tasks"@,
        ) is Some),
        r matches Some(v) ==> *v == match json::member(*body, "trigger_tasks"@) {
            Some(t) => t,
            None => json::member(*body, "fail_trigger_tasks"@)->0,
        },
{
    match body.get("trigger_tasks") {
        Some(v) => Some(v),
        None => body.get("fail_trigger_tasks"),
    }
}

/// What is stored of a profile of dynamic names.
pub struct DdnsInput {
    pub name: String,
    pub provider: String,
    pub domains: Vec<String>,
}

/// What is stored of a profile of dynamic names; there is nothing where it asks
/// for less than one or more than ten attempts.
pub fn ddns_input(body: &Json) -> (r: Option<DdnsInput>)
    ensures
        r.is_some() == (1 <= json::u64_member(*body, "max_retries"@) <= 10),
        r matches Some(d) ==> {
            &&& d.name@ == json::text_member(*body, "name"@)
            &&& d.provider@ == json::text_member(*body, "provider"@)
            &&& search::texts(d.domains@) == json::text_list_member(*body, "domains"@)
        },
{
    let max_retries: u64 = u64_field(body, "max_retries");
    if max_retries < 1 || max_retries > 10 {
        return None;
    }
    Some(
        DdnsInput {
            name: string_field(body, "name"),
            provider: string_field(body, "provider"),
            domains: string_list_field(body, "domains"),
        },
    )
}

/// The error of `ddns_input`.
pub fn ddns_retry_error() -> (r: &'static str)
    ensures
        r@ == "the retry count must be an integer between 1 and 10"@,
{
    "the retry count must be an integer between 1 and 10"
}

/// What is stored of an alert; its rules come beside it.
pub struct AlertRuleInput {
    pub name: String,
    pub enable: Option<bool>,
    pub trigger_mode: u8,
    pub notification_group_id: u64,
    pub fail_trigger_tasks: Vec<u64>,
    pub recover_trigger_tasks: Vec<u64>,
}

/// Whether `r` is what is stored of what `body` asks for.
pub open spec fn is_alert_rule_input(r: AlertRuleInput, body: Json) -> bool {
    &&& r.name@ == json::text_member(body, "name"@)
    &&& r.enable == json::as_bool(json::member(body, "enable"@))
    &&& r.trigger_mode == json::u64_member(body, "trigger_mode"@) % 256
    &&& r.notification_group_id == json::u64_member(body, "notification_group_id"@)
    &&& r.fail_trigger_tasks@ == json::u64_list_member(body, "fail_trigger_tasks"@)
    &&& r.recover_trigger_tasks@ == json::u64_list_member(body, "recover_trigger_tasks"@)
}

/// What is stored of an alert.
pub fn alert_rule_input(body: &Json) -> (r: AlertRuleInput)
    ensures
        is_alert_rule_input(r, *body),
{
    AlertRuleInput {
        name: string_field(body, "name"),
        enable: opt_bool_field(body, "enable"),
        trigger_mode: u8_field(body, "trigger_mode"),
        notification_group_id: u64_field(body, "notification_group_id"),
        fail_trigger_tasks: u64_list_field(body, "fail_trigger_tasks"),
        recover_trigger_tasks: u64_list_field(body, "recover_trigger_tasks"),
    }
}

/// A user from the columns of a row.
pub fn user_from_row(
    id: i64,
    username: String,
    role: i64,
    agent_secret: String,
    reject_password: i64,
    created_at: i64,
    updated_at: i64,
) -> (r: UserResource)
    ensures
        r.id == convert::floored(id as int),
        r.username == username,
        r.role == low8(role),
        r.agent_secret == agent_secret,
        r.reject_password == (reject_password != 0),
        r.created_at == convert::floored(created_at as int),
        r.updated_at == convert::floored(updated_at as int),
{
    UserResource {
        id: i64_to_u64(id),
        username,
        role: low_u8(role),
        agent_secret,
        reject_password: reject_password != 0,
        created_at: i64_to_u64(created_at),
        updated_at: i64_to_u64(updated_at),
    }
}

/// A group from the columns of a row.
pub fn named_from_row(
    id: i64,
    name: String,
    user_id: i64,
    created_at: i64,
    updated_at: i64,
) -> (r: NamedResource)
    ensures
        r.id == convert::floored(id as int),
        r.name == name,
        r.user_id == convert::floored(user_id as int),
        r.created_at == convert::floored(created_at as int),
        r.updated_at == convert::floored(updated_at as int),
{
    NamedResource {
        id: i64_to_u64(id),
        name,
        user_id: i64_to_u64(user_id),
        created_at: i64_to_u64(created_at),
        updated_at: i64_to_u64(updated_at),
    }
}

/// The columns of a notification.
pub struct NotificationRow {
    pub id: i64,
    pub user_id: i64,
    pub name: String,
    pub url: String,
    pub request_method: i64,
    pub request_type: i64,
    pub request_header: String,
    pub request_body: String,
    pub verify_tls: Option<i64>,
    pub format_metric_units: Option<i64>,
    pub skip_check: Option<i64>,
    pub created_at: i64,
    pub updated_at: i64,
}

/// The truth value of a column.
pub open spec fn column_truth(value: Option<i64>) -> Option<bool> {
    match value {
        Some(v) => Some(v != 0),
        None => None,
    }
}

/// A notification from the columns of a row.
pub fn notification_from_row(row: NotificationRow) -> (r: NotificationResource)
    ensures
        r.id == convert::floored(row.id as int),
        r.user_id == convert::floored(row.user_id as int),
        r.name == row.name,
        r.url == row.url,
        r.request_method == low8(row.request_method),
        r.request_type == low8(row.request_type),
        r.request_header == row.request_header,
        r.request_body == row.request_body,
        r.verify_tls == column_truth(row.verify_tls),
        r.format_metric_units == column_truth(row.format_metric_units),
        r.skip_check == column_truth(row.skip_check),
        r.created_at == convert::floored(row.created_at as int),
        r.updated_at == convert::floored(row.updated_at as int),
{
    NotificationResource {
        id: i64_to_u64(row.id),
        user_id: i64_to_u64(row.user_id),
        name: row.name,
        url: row.url,
        request_method: low_u8(row.request_method),
        request_type: low_u8(row.request_type),
        request_header: row.request_header,
        request_body: row.request_body,
        verify_tls: opt_i64_to_bool(row.verify_tls),
        format_metric_units: opt_i64_to_bool(row.format_metric_units),
        skip_check: opt_i64_to_bool(row.skip_check),
        created_at: i64_to_u64(row.created_at),
        updated_at: i64_to_u64(row.updated_at),
    }
}

/// The columns of a scheduled task.
pub struct CronRow {
    pub id: i64,
    pub user_id: i64,
    pub name: String,
    pub task_type: i64,
    pub scheduler: String,
    pub command: String,
    pub servers: Vec<u64>,
    pub push_successful: i64,
    pub notification_group_id: i64,
    pub last_executed_at: Option<i64>,
    pub last_result: i64,
    pub cover: i64,
    pub created_at: i64,
    pub updated_at: i64,
}

/// A scheduled task from the columns of a row.
pub fn cron_from_row(row: CronRow) -> (r: CronResource)
    ensures
        r.id == convert::floored(row.id as int),
        r.user_id == convert::floored(row.user_id as int),
        r.name == row.name,
        r.task_type == low8(row.task_type),
        r.scheduler == row.scheduler,
        r.command == row.command,
        r.servers == row.servers,
        r.push_successful == (row.push_successful != 0),
        r.notification_group_id == convert::floored(row.notification_group_id as int),
        r.last_executed_at == match row.last_executed_at {
            Some(t) => Some(convert::floored(t as int) as u64),
            None => None,
        },
        r.last_result == (row.last_result != 0),
        r.cover == low8(row.cover),
        r.created_at == convert::floored(row.created_at as int),
        r.updated_at == convert::floored(row.updated_at as int),
{
    let last_executed_at: Option<u64> = match row.last_executed_at {
        Some(t) => Some(i64_to_u64(t)),
        None => None,
    };
    CronResource {
        id: i64_to_u64(row.id),
        user_id: i64_to_u64(row.user_id),
        name: row.name,
        task_type: low_u8(row.task_type),
        scheduler: row.scheduler,
        command: row.command,
        servers: row.servers,
        push_successful: row.push_successful != 0,
        notification_group_id: i64_to_u64(row.notification_group_id),
        last_executed_at,
        last_result: row.last_result != 0,
        cover: low_u8(row.cover),
        created_at: i64_to_u64(row.created_at),
        updated_at: i64_to_u64(row.updated_at),
    }
}

/// A forwarding from the columns of a row.
pub fn nat_from_row(
    id: i64,
    user_id: i64,
    enabled: i64,
    name: String,
    server_id: i64,
    host: String,
    domain: String,
    created_at: i64,
    updated_at: i64,
) -> (r: NatResource)
    ensures
        r.id == convert::floored(id as int),
        r.user_id == convert::floored(user_id as int),
        r.enabled == (enabled != 0),
        r.name == name,
        r.server_id == convert::floored(server_id as int),
        r.host == host,
        r.domain == domain,
        r.created_at == convert::floored(created_at as int),
        r.updated_at == convert::floored(updated_at as int),
{
    NatResource {
        id: i64_to_u64(id),
        user_id: i64_to_u64(user_id),
        enabled: enabled != 0,
        name,
        server_id: i64_to_u64(server_id),
        host,
        domain,
        created_at: i64_to_u64(created_at),
        updated_at: i64_to_u64(updated_at),
    }
}

/// A transfer entry from the columns of a row.
pub fn transfer_from_row(
    id: i64,
    server_id: i64,
    in_bytes: i64,
    out_bytes: i64,
    created_at: i64,
    updated_at: i64,
) -> (r: TransferResource)
    ensures
        r.id == convert::floored(id as int),
        r.server_id == convert::floored(server_id as int),
        r.in_bytes == convert::floored(in_bytes as int),
        r.out_bytes == convert::floored(out_bytes as int),
        r.created_at == convert::floored(created_at as int),
        r.updated_at == convert::floored(updated_at as int),
{
    TransferResource {
        id: i64_to_u64(id),
        server_id: i64_to_u64(server_id),
        in_bytes: i64_to_u64(in_bytes),
        out_bytes: i64_to_u64(out_bytes),
        created_at: i64_to_u64(created_at),
        updated_at: i64_to_u64(updated_at),
    }
}

/// A blocked address from the columns of a row; the address is written out
/// already.
pub fn waf_from_row(
    ip: String,
    block_identifier: i64,
    block_reason: i64,
    block_timestamp: i64,
    count: i64,
) -> (r: WafResource)
    ensures
        r.ip == ip,
        r.block_identifier == block_identifier,
        r.block_reason == low8(block_reason),
        r.block_timestamp == convert::floored(block_timestamp as int),
        r.count == convert::floored(count as int),
{
    WafResource {
        ip,
        block_identifier,
        block_reason: low_u8(block_reason),
        block_timestamp: i64_to_u64(block_timestamp),
        count: i64_to_u64(count),
    }
}

/// The columns of a watched service, but for its latency bounds.
pub struct ServiceRow {
    pub id: i64,
    pub user_id: i64,
    pub name: String,
    pub service_type: i64,
    pub target: String,
    pub duration: i64,
    pub display_index: i64,
    pub notify: i64,
    pub notification_group_id: i64,
    pub cover: i64,
    pub skip_servers: Vec<(String, Json)>,
    pub enable_trigger_task: i64,
    pub enable_show_in_service: i64,
    pub fail_trigger_tasks: Vec<u64>,
    pub recover_trigger_tasks: Vec<u64>,
    pub latency_notify: i64,
    pub created_at: i64,
    pub updated_at: i64,
}

/// A watched service from the columns of a row.
pub fn service_from_row(row: ServiceRow) -> (r: ServiceResource)
    ensures
        r.id == convert::floored(row.id as int),
        r.user_id == convert::floored(row.user_id as int),
        r.name == row.name,
        r.service_type == low8(row.service_type),
        r.target == row.target,
        r.duration == convert::floored(row.duration as int),
        r.display_index == low32(row.display_index),
        r.notify == (row.notify != 0),
        r.notification_group_id == convert::floored(row.notification_group_id as int),
        r.cover == low8(row.cover),
        r.enable_trigger_task == (row.enable_trigger_task != 0),
        r.enable_show_in_service == (row.enable_show_in_service != 0),
        r.fail_trigger_tasks == row.fail_trigger_tasks,
        r.recover_trigger_tasks == row.recover_trigger_tasks,
        r.latency_notify == (row.latency_notify != 0),
        r.skip_servers == row.skip_servers,
        r.created_at == convert::floored(row.created_at as int),
        r.updated_at == convert::floored(row.updated_at as int),
{
    ServiceResource {
        id: i64_to_u64(row.id),
        user_id: i64_to_u64(row.user_id),
        name: row.name,
        service_type: low_u8(row.service_type),
        target: row.target,
        duration: i64_to_u64(row.duration),
        display_index: low_i32(row.display_index),
        notify: row.notify != 0,
        notification_group_id: i64_to_u64(row.notification_group_id),
        cover: low_u8(row.cover),
        enable_trigger_task: row.enable_trigger_task != 0,
        enable_show_in_service: row.enable_show_in_service != 0,
        fail_trigger_tasks: row.fail_trigger_tasks,
        recover_trigger_tasks: row.recover_trigger_tasks,
        latency_notify: row.latency_notify != 0,
        skip_servers: row.skip_servers,
        created_at: i64_to_u64(row.created_at),
        updated_at: i64_to_u64(row.updated_at),
    }
}

/// The columns of an alert.
pub struct AlertRuleRow {
    pub id: i64,
    pub user_id: i64,
    pub name: String,
    pub enable: Option<i64>,
    pub trigger_mode: i64,
    pub notification_group_id: i64,
    pub rules: Vec<Json>,
    pub fail_trigger_tasks: Vec<u64>,
    pub recover_trigger_tasks: Vec<u64>,
    pub muted_until: i64,
    pub created_at: i64,
    pub updated_at: i64,
}

/// An alert from the columns of a row.
pub fn alert_rule_from_row(row: AlertRuleRow) -> (r: AlertRuleResource)
    ensures
        r.id == convert::floored(row.id as int),
        r.user_id == convert::floored(row.user_id as int),
        r.name == row.name,
        r.enable == column_truth(row.enable),
        r.trigger_mode == low8(row.trigger_mode),
        r.notification_group_id == convert::floored(row.notification_group_id as int),
        r.rules == row.rules,
        r.fail_trigger_tasks == row.fail_trigger_tasks,
        r.recover_trigger_tasks == row.recover_trigger_tasks,
        r.muted_until == convert::floored(row.muted_until as int),
        r.created_at == convert::floored(row.created_at as int),
        r.updated_at == convert::floored(row.updated_at as int),
{
    AlertRuleResource {
        id: i64_to_u64(row.id),
        user_id: i64_to_u64(row.user_id),
        name: row.name,
        enable: opt_i64_to_bool(row.enable),
        trigger_mode: low_u8(row.trigger_mode),
        notification_group_id: i64_to_u64(row.notification_group_id),
        rules: row.rules,
        fail_trigger_tasks: row.fail_trigger_tasks,
        recover_trigger_tasks: row.recover_trigger_tasks,
        muted_until: i64_to_u64(row.muted_until),
        created_at: i64_to_u64(row.created_at),
        updated_at: i64_to_u64(row.updated_at),
    }
}

/// The columns of a server.
pub struct ServerRow {
    pub id: i64,
    pub user_id: i64,
    pub uuid: String,
    pub name: String,
    pub note: String,
    pub public_note: String,
    pub display_index: i64,
    pub hide_for_guest: i64,
    pub enable_ddns: i64,
    pub ddns_profiles: Vec<u64>,
    pub override_ddns_domains: Vec<(u64, Vec<String>)>,
    pub host: Option<Host>,
    pub state: Option<HostState>,
    pub geoip: Option<GeoIp>,
    pub last_active: i64,
    pub prev_transfer_in_snapshot: i64,
    pub prev_transfer_out_snapshot: i64,
}

/// A server from the columns of a row.
pub fn public_server_from_row(row: ServerRow) -> (r: PublicServer)
    ensures
        r.id == convert::floored(row.id as int),
        r.user_id == convert::floored(row.user_id as int),
        r.uuid == row.uuid,
        r.name == row.name,
        r.note == row.note,
        r.public_note == row.public_note,
        r.display_index == low32(row.display_index),
        r.hide_for_guest == (row.hide_for_guest != 0),
        r.enable_ddns == (row.enable_ddns != 0),
        r.ddns_profiles == row.ddns_profiles,
        r.override_ddns_domains == row.override_ddns_domains,
        r.host == row.host,
        r.state == row.state,
        r.geoip == row.geoip,
        r.last_active == convert::floored(row.last_active as int),
        r.prev_transfer_in_snapshot == convert::floored(row.prev_transfer_in_snapshot as int),
        r.prev_transfer_out_snapshot == convert::floored(row.prev_transfer_out_snapshot as int),
{
    PublicServer {
        id: i64_to_u64(row.id),
        user_id: i64_to_u64(row.user_id),
        uuid: row.uuid,
        name: row.name,
        note: row.note,
        public_note: row.public_note,
        display_index: low_i32(row.display_index),
        hide_for_guest: row.hide_for_guest != 0,
        enable_ddns: row.enable_ddns != 0,
        ddns_profiles: row.ddns_profiles,
        override_ddns_domains: row.override_ddns_domains,
        host: row.host,
        state: row.state,
        geoip: row.geoip,
        last_active: i64_to_u64(row.last_active),
        prev_transfer_in_snapshot: i64_to_u64(row.prev_transfer_in_snapshot),
        prev_transfer_out_snapshot: i64_to_u64(row.prev_transfer_out_snapshot),
    }
}

/// A profile of dynamic names from the columns of a row.
pub fn ddns_from_row(
    id: i64,
    user_id: i64,
    name: String,
    provider: String,
    domains: Vec<String>,
    body: Json,
    created_at: i64,
    updated_at: i64,
) -> (r: DdnsResource)
    ensures
        r.id == convert::floored(id as int),
        r.user_id == convert::floored(user_id as int),
        r.name == name,
        r.provider == provider,
        r.domains == domains,
        r.body == body,
        r.created_at == convert::floored(created_at as int),
        r.updated_at == convert::floored(updated_at as int),
{
    DdnsResource {
        id: i64_to_u64(id),
        user_id: i64_to_u64(user_id),
        name,
        provider,
        domains,
        body,
        created_at: i64_to_u64(created_at),
        updated_at: i64_to_u64(updated_at),
    }
}

/// Whether a field of a profile is told under a name of its own.
pub open spec fn is_own_field(name: Seq<char>) -> bool {
    ||| name == "id"@
    ||| name == "user_id"@
    ||| name == "name"@
    ||| name == "provider"@
    ||| name == "domains"@
    ||| name == "created_at"@
    ||| name == "updated_at"@
}

/// The numbers of the fields that a profile's body adds to what is told of it.
pub open spec fn added_fields(entries: Seq<(String, Json)>) -> Seq<int>
    decreases entries.len(),
{
    if entries.len() == 0 {
        seq![]
    } else {
        let before = added_fields(entries.drop_last());
        if is_own_field(entries.last().0@) {
            before
        } else {
            before.push(entries.len() - 1)
        }
    }
}

/// The positions of the fields that a profile's body adds to what is told of it.
pub fn ddns_added_fields(body: &Json) -> (r: Vec<usize>)
    ensures
        match *body {
            Json::Object(entries) => r@.map_values(|i: usize| i as int) == added_fields(entries@),
            _ => r@.len() == 0,
        },
{
    let mut out: Vec<usize> = Vec::new();
    let entries = match body {
        Json::Object(entries) => entries,
        _ => {
            return out;
        },
    };
    proof {
        assert(entries@.take(0) =~= Seq::<(String, Json)>::empty());
    }
    let mut i: usize = 0;
    while i < entries.len()
        invariant
            i <= entries@.len(),
            out@.map_values(|i: usize| i as int) =~= added_fields(entries@.take(i as int)),
        decreases entries@.len() - i,
    {
        proof {
            assert(entries@.take(i + 1).drop_last() =~= entries@.take(i as int));
        }
        let name = entries[i].0.as_str();
        let own = same(name, "id") || same(name, "user_id") || same(name, "name") || same(
            name,
            "provider",
        ) || same(name, "domains") || same(name, "created_at") || same(name, "updated_at");
        if !own {
            out.push(i);
        }
        i += 1;
    }
    proof {
        assert(entries@.take(i as int) =~= entries@);
    }
    out
}

/// The last version of the database.
pub const SCHEMA_VERSION: u32 = 5;

/// The versions that a database of version `current` still has to go through,
/// in order.
pub open spec fn versions_after(current: int) -> Seq<u32> {
    if current >= SCHEMA_VERSION {
        seq![]
    } else {
        Seq::new((SCHEMA_VERSION - current) as nat, |i: int| (current + 1 + i) as u32)
    }
}

/// The versions that a database still has to go through.
pub fn pending_migrations(current: u32) -> (r: Vec<u32>)
    ensures
        r@ == versions_after(current as int),
{
    let mut out: Vec<u32> = Vec::new();
    let mut version: u32 = current;
    while version < SCHEMA_VERSION
        invariant
            current <= version,
            version == current || version <= SCHEMA_VERSION,
            out@.len() == version - current,
            forall|i: int| 0 <= i < out@.len() ==> #[trigger] out@[i] == current + 1 + i,
        decreases SCHEMA_VERSION - version,
    {
        version += 1;
        out.push(version);
    }
    proof {
        assert(out@ =~= versions_after(current as int));
    }
    out
}

/// A database that has gone through them has nothing left to go through.
pub proof fn migrations_are_run_once(current: u32)
    requires
        versions_after(current as int).len() > 0,
    ensures
        versions_after(versions_after(current as int).last() as int) == Seq::<u32>::empty(),
{
}

/// A server is stored with what the edit names under the same names; a switch that is not
/// named is off.
pub proof fn servers_are_stored_as_edited(r: ServerInput, body: Json)
    requires
        is_server_input(r, body),
    ensures
        json::member(body, "name"@) matches Some(Json::Text(s)) ==> r.name@ == s@,
        json::member(body, "note"@) matches Some(Json::Text(s)) ==> r.note@ == s@,
        json::member(body, "public_note"@) matches Some(Json::Text(s)) ==> r.public_note@ == s@,
        json::member(body, "display_index"@) matches Some(Json::Unsigned(n)) ==> (n < 0x8000_0000 ==> r.display_index == n),
        json::member(body, "hide_for_guest"@) matches Some(Json::Bool(b)) ==> r.hide_for_guest == b,
        json::member(body, "hide_for_guest"@) is None ==> !r.hide_for_guest,
        json::member(body, "enable_ddns"@) matches Some(Json::Bool(b)) ==> r.enable_ddns == b,
        json::member(body, "enable_ddns"@) is None ==> !r.enable_ddns,
        json::member(body, "ddns_profiles"@) matches Some(Json::List(items)) ==> r.ddns_profiles@ == json::unsigned_items(
            items@,
        ),
{
    if let Some(Json::Unsigned(n)) = json::member(body, "display_index"@) {
        if n < 0x8000_0000 {
            small_numbers_keep_their_value(n as i64);
        }
    }
}

/// A notification is stored with what the request names under the same names; a switch
/// that is not named is left open.
pub proof fn notifications_are_stored_as_named(r: NotificationInput, body: Json)
    requires
        is_notification_input(r, body),
    ensures
        json::member(body, "name"@) matches Some(Json::Text(s)) ==> r.name@ == s@,
        json::member(body, "url"@) matches Some(Json::Text(s)) ==> r.url@ == s@,
        json::member(body, "request_method"@) matches Some(Json::Unsigned(n)) ==> (n <= 255 ==> r.request_method == n),
        json::member(body, "request_method"@) is None ==> r.request_method == 0,
        json::member(body, "request_type"@) matches Some(Json::Unsigned(n)) ==> (n <= 255 ==> r.request_type == n),
        json::member(body, "request_type"@) is None ==> r.request_type == 0,
        json::member(body, "request_header"@) matches Some(Json::Text(s)) ==> r.request_header@ == s@,
        json::member(body, "request_body"@) matches Some(Json::Text(s)) ==> r.request_body@ == s@,
        json::member(body, "verify_tls"@) matches Some(Json::Bool(b)) ==> r.verify_tls == Some(b),
        json::member(body, "verify_tls"@) is None ==> r.verify_tls is None,
        json::member(body, "format_metric_units"@) matches Some(Json::Bool(b)) ==> r.format_metric_units == Some(b),
        json::member(body, "format_metric_units"@) is None ==> r.format_metric_units is None,
        json::member(body, "skip_check"@) matches Some(Json::Bool(b)) ==> r.skip_check == Some(b),
        json::member(body, "skip_check"@) is None ==> r.skip_check is None,
{
}

/// A task is stored with what the request names under the same names; a switch that is not
/// named is off.
pub proof fn tasks_are_stored_as_named(r: CronInput, body: Json)
    requires
        is_cron_input(r, body),
    ensures
        json::member(body, "name"@) matches Some(Json::Text(s)) ==> r.name@ == s@,
        json::member(body, "task_type"@) matches Some(Json::Unsigned(n)) ==> (n <= 255 ==> r.task_type == n),
        json::member(body, "task_type"@) is None ==> r.task_type == 0,
        json::member(body, "scheduler"@) matches Some(Json::Text(s)) ==> r.scheduler@ == s@,
        json::member(body, "command"@) matches Some(Json::Text(s)) ==> r.command@ == s@,
        json::member(body, "servers"@) matches Some(Json::List(items)) ==> r.servers@ == json::unsigned_items(
            items@,
        ),
        json::member(body, "push_successful"@) matches Some(Json::Bool(b)) ==> r.push_successful == b,
        json::member(body, "push_successful"@) is None ==> !r.push_successful,
        json::member(body, "notification_group_id"@) matches Some(Json::Unsigned(n)) ==> r.notification_group_id == n,
        json::member(body, "notification_group_id"@) is None ==> r.notification_group_id == 0,
        json::member(body, "cover"@) matches Some(Json::Unsigned(n)) ==> (n <= 255 ==> r.cover == n),
        json::member(body, "cover"@) is None ==> r.cover == 0,
{
}

/// A forwarding is stored with what the request names under the same names, and switched
/// off where it does not switch it on.
pub proof fn passages_are_stored_as_named(r: NatInput, body: Json)
    requires
        is_nat_input(r, body),
    ensures
        json::member(body, "enabled"@) matches Some(Json::Bool(b)) ==> r.enabled == b,
        json::member(body, "enabled"@) is None ==> !r.enabled,
        json::member(body, "name"@) matches Some(Json::Text(s)) ==> r.name@ == s@,
        json::member(body, "server_id"@) matches Some(Json::Unsigned(n)) ==> r.server_id == n,
        json::member(body, "server_id"@) is None ==> r.server_id == 0,
        json::member(body, "host"@) matches Some(Json::Text(s)) ==> r.host@ == s@,
        json::member(body, "domain"@) matches Some(Json::Text(s)) ==> r.domain@ == s@,
{
}

/// A service is stored with what the request names under the same names: its tasks for
/// failure and those for recovery, its switches, which are off where they are not named, and
/// its target without white space around it.
pub proof fn services_are_stored_as_named(r: ServiceInput, body: Json)
    requires
        is_service_input(r, body),
    ensures
        json::member(body, "name"@) matches Some(Json::Text(s)) ==> r.name@ == s@,
        json::member(body, "type"@) matches Some(Json::Unsigned(n)) ==> (n <= 255 ==> r.service_type == n),
        json::member(body, "type"@) is None ==> r.service_type == 0,
        json::member(body, "target"@) matches Some(Json::Text(s)) ==> r.target@ == text::trimmed(s@),
        json::member(body, "duration"@) matches Some(Json::Unsigned(n)) ==> r.duration == n,
        json::member(body, "duration"@) is None ==> r.duration == 0,
        json::member(body, "display_index"@) matches Some(Json::Unsigned(n)) ==> (n <= i64::MAX ==> r.display_index == n),
        json::member(body, "display_index"@) matches Some(Json::Negative(n)) ==> r.display_index == n,
        json::member(body, "notify"@) matches Some(Json::Bool(b)) ==> r.notify == b,
        json::member(body, "notify"@) is None ==> !r.notify,
        json::member(body, "notification_group_id"@) matches Some(Json::Unsigned(n)) ==> r.notification_group_id == n,
        json::member(body, "notification_group_id"@) is None ==> r.notification_group_id == 0,
        json::member(body, "cover"@) matches Some(Json::Unsigned(n)) ==> (n <= 255 ==> r.cover == n),
        json::member(body, "cover"@) is None ==> r.cover == 0,
        json::member(body, "enable_trigger_task"@) matches Some(Json::Bool(b)) ==> r.enable_trigger_task == b,
        json::member(body, "enable_trigger_task"@) is None ==> !r.enable_trigger_task,
        json::member(body, "enable_show_in_service"@) matches Some(Json::Bool(b)) ==> r.enable_show_in_service == b,
        json::member(body, "enable_show_in_service"@) is None ==> !r.enable_show_in_service,
        json::member(body, "fail_trigger_tasks"@) matches Some(Json::List(items)) ==> r.fail_trigger_tasks@ == json::unsigned_items(
            items@,
        ),
        json::member(body, "recover_trigger_tasks"@) matches Some(Json::List(items)) ==> r.recover_trigger_tasks@ == json::unsigned_items(
            items@,
        ),
        json::member(body, "latency_notify"@) matches Some(Json::Bool(b)) ==> r.latency_notify == b,
        json::member(body, "latency_notify"@) is None ==> !r.latency_notify,
{
}

/// An alert is stored with what the request names under the same names: its tasks for
/// failure and those for recovery among it.
pub proof fn alerts_are_stored_as_named(r: AlertRuleInput, body: Json)
    requires
        is_alert_rule_input(r, body),
    ensures
        json::member(body, "name"@) matches Some(Json::Text(s)) ==> r.name@ == s@,
        json::member(body, "enable"@) matches Some(Json::Bool(b)) ==> r.enable == Some(b),
        json::member(body, "enable"@) is None ==> r.enable is None,
        json::member(body, "trigger_mode"@) matches Some(Json::Unsigned(n)) ==> (n <= 255 ==> r.trigger_mode == n),
        json::member(body, "trigger_mode"@) is None ==> r.trigger_mode == 0,
        json::member(body, "notification_group_id"@) matches Some(Json::Unsigned(n)) ==> r.notification_group_id == n,
        json::member(body, "notification_group_id"@) is None ==> r.notification_group_id == 0,
        json::member(body, "fail_trigger_tasks"@) matches Some(Json::List(items)) ==> r.fail_trigger_tasks@ == json::unsigned_items(
            items@,
        ),
        json::member(body, "recover_trigger_tasks"@) matches Some(Json::List(items)) ==> r.recover_trigger_tasks@ == json::unsigned_items(
            items@,
        ),
{
}

/// A database goes through every version behind its own, one after the other, up to the
/// fifth; one of the last version goes through none.
pub proof fn every_version_is_gone_through(current: u32, i: int)
    requires
        0 <= i,
    ensures
        current <= 5 ==> versions_after(current as int).len() == 5 - current,
        current <= 5 && i < 5 - current ==> versions_after(current as int)[i] == current + 1 + i,
        current >= 5 ==> versions_after(current as int).len() == 0,
{
}

/// What a profile's body adds to what is told of it are the fields under other names than
/// its own, in their order.
pub proof fn own_fields_are_not_added(entries: Seq<(String, Json)>)
    ensures
        forall|k: int|
            0 <= k < entries.len() ==> (added_fields(entries).contains(k) <==> !is_own_field(
                (#[trigger] entries[k]).0@,
            )),
        forall|i: int|
            0 <= i < added_fields(entries).len() ==> 0 <= #[trigger] added_fields(entries)[i]
                < entries.len(),
        is_own_field("id"@) && is_own_field("user_id"@) && is_own_field("name"@)
            && is_own_field("provider"@) && is_own_field("domains"@) && is_own_field("created_at"@)
            && is_own_field("updated_at"@),
    decreases entries.len(),
{
    if entries.len() > 0 {
        let front = entries.drop_last();
        let before = added_fields(front);
        let all = added_fields(entries);
        own_fields_are_not_added(front);
        assert forall|k: int| 0 <= k < entries.len() implies (all.contains(k) <==> !is_own_field(
            (#[trigger] entries[k]).0@,
        )) by {
            if k < front.len() {
                assert(front[k] == entries[k]);
                if before.contains(k) {
                    let i = choose|i: int| 0 <= i < before.len() && before[i] == k;
                    assert(all[i] == k);
                }
                if all.contains(k) {
                    let i = choose|i: int| 0 <= i < all.len() && all[i] == k;
                    if i < before.len() {
                        assert(before[i] == k);
                    }
                }
            } else if !is_own_field(entries[k].0@) {
                assert(all[all.len() - 1] == k);
            } else if all.contains(k) {
                let i = choose|i: int| 0 <= i < all.len() && all[i] == k;
                assert(before[i] == k);
            }
        }
        assert forall|i: int| 0 <= i < all.len() implies 0 <= #[trigger] all[i]
            < entries.len() by {
            if i < before.len() {
                assert(all[i] == before[i]);
            }
        }
    }
}

} // verus!
