//! The dashboard's records: servers, users, and what they set up.
use vstd::prelude::*;

use crate::json::Json;

verus! {

/// The sizes that an agent reports of its machine.
#[derive(Debug, Clone)]
pub struct Host {
    pub mem_total: u64,
    pub disk_total: u64,
    pub swap_total: u64,
}

/// The counters that an agent reports of its machine's state.
#[derive(Debug, Clone)]
pub struct HostState {
    pub mem_used: u64,
    pub swap_used: u64,
    pub disk_used: u64,
    pub net_in_transfer: u64,
    pub net_out_transfer: u64,
    pub net_in_speed: u64,
    pub net_out_speed: u64,
    pub uptime: u64,
    pub tcp_conn_count: u64,
    pub udp_conn_count: u64,
    pub process_count: u64,
}

/// The addresses that an agent is reached by; an empty text is no address.
#[derive(Debug, Clone)]
pub struct Ip {
    pub ipv4: String,
    pub ipv6: String,
}

/// Where an agent is.
#[derive(Debug, Clone)]
pub struct GeoIp {
    pub use6: bool,
    pub ip: Option<Ip>,
    pub country_code: String,
    pub dashboard_boot_time: u64,
}

#[derive(Debug, Clone)]
pub struct StoredServer {
    pub id: u64,
    pub user_id: u64,
    pub host: Option<Host>,
    pub state: Option<HostState>,
    pub geoip: Option<GeoIp>,
    pub last_active_unix: u64,
}

#[derive(Debug, Clone)]
pub struct PublicServer {
    pub id: u64,
    pub user_id: u64,
    pub uuid: String,
    pub name: String,
    pub note: String,
    pub public_note: String,
    pub display_index: i32,
    pub hide_for_guest: bool,
    pub enable_ddns: bool,
    pub ddns_profiles: Vec<u64>,
    pub override_ddns_domains: Vec<(u64, Vec<String>)>,
    pub host: Option<Host>,
    pub state: Option<HostState>,
    pub geoip: Option<GeoIp>,
    pub last_active: u64,
    pub prev_transfer_in_snapshot: u64,
    pub prev_transfer_out_snapshot: u64,
}

#[derive(Debug, Clone)]
pub struct ApiUser {
    pub id: u64,
    pub username: String,
    pub role: u8,
    pub agent_secret: String,
    pub reject_password: bool,
}

#[derive(Debug, Clone)]
pub struct UserResource {
    pub id: u64,
    pub username: String,
    pub role: u8,
    pub agent_secret: String,
    pub reject_password: bool,
    pub created_at: u64,
    pub updated_at: u64,
}

#[derive(Debug, Clone)]
pub struct ProfileResource {
    pub id: u64,
    pub username: String,
    pub role: u8,
    pub agent_secret: String,
    pub reject_password: bool,
    pub login_ip: String,
    pub oauth2_bind: Vec<(String, String)>,
}

#[derive(Debug, Clone)]
pub struct NamedResource {
    pub id: u64,
    pub name: String,
    pub user_id: u64,
    pub created_at: u64,
    pub updated_at: u64,
}

#[derive(Debug, Clone)]
pub struct NotificationGroupResource {
    pub group: NamedResource,
    pub notifications: Vec<u64>,
}

#[derive(Debug, Clone)]
pub struct ServerGroupResource {
    pub group: NamedResource,
    pub servers: Vec<u64>,
}

#[derive(Debug, Clone)]
pub struct NotificationResource {
    pub id: u64,
    pub user_id: u64,
    pub name: String,
    pub url: String,
    pub request_method: u8,
    pub request_type: u8,
    pub request_header: String,
    pub request_body: String,
    pub verify_tls: Option<bool>,
    pub format_metric_units: Option<bool>,
    pub skip_check: Option<bool>,
    pub created_at: u64,
    pub updated_at: u64,
}

#[derive(Debug, Clone)]
pub struct CronResource {
    pub id: u64,
    pub user_id: u64,
    pub name: String,
    pub task_type: u8,
    pub scheduler: String,
    pub command: String,
    pub servers: Vec<u64>,
    pub push_successful: bool,
    pub notification_group_id: u64,
    pub last_executed_at: Option<u64>,
    pub last_result: bool,
    pub cover: u8,
    pub created_at: u64,
    pub updated_at: u64,
}

#[derive(Debug, Clone)]
pub struct NatResource {
    pub id: u64,
    pub user_id: u64,
    pub enabled: bool,
    pub name: String,
    pub server_id: u64,
    pub host: String,
    pub domain: String,
    pub created_at: u64,
    pub updated_at: u64,
}

/// A watched service. Its latency bounds are no part of it: whether a delay
/// is within them is told to the functions that ask.
#[derive(Debug)]
pub struct ServiceResource {
    pub id: u64,
    pub user_id: u64,
    pub name: String,
    pub service_type: u8,
    pub target: String,
    pub duration: u64,
    pub display_index: i32,
    pub notify: bool,
    pub notification_group_id: u64,
    pub cover: u8,
    pub enable_trigger_task: bool,
    pub enable_show_in_service: bool,
    pub fail_trigger_tasks: Vec<u64>,
    pub recover_trigger_tasks: Vec<u64>,
    pub latency_notify: bool,
    pub skip_servers: Vec<(String, Json)>,
    pub created_at: u64,
    pub updated_at: u64,
}

#[derive(Debug)]
pub struct DdnsResource {
    pub id: u64,
    pub user_id: u64,
    pub name: String,
    pub provider: String,
    pub domains: Vec<String>,
    pub body: Json,
    pub created_at: u64,
    pub updated_at: u64,
}

#[derive(Debug)]
pub struct AlertRuleResource {
    pub id: u64,
    pub user_id: u64,
    pub name: String,
    pub enable: Option<bool>,
    pub trigger_mode: u8,
    pub notification_group_id: u64,
    pub rules: Vec<Json>,
    pub fail_trigger_tasks: Vec<u64>,
    pub recover_trigger_tasks: Vec<u64>,
    pub muted_until: u64,
    pub created_at: u64,
    pub updated_at: u64,
}

#[derive(Debug, Clone)]
pub struct WafResource {
    pub ip: String,
    pub block_identifier: i64,
    pub block_reason: u8,
    pub block_timestamp: u64,
    pub count: u64,
}

#[derive(Debug, Clone)]
pub struct PendingTask {
    pub row_id: i64,
    pub task_id: u64,
    pub task_type: u64,
    pub data: String,
}

#[derive(Debug, Clone)]
pub struct NotificationDeadLetterEntry {
    pub id: u64,
    pub notification_id: u64,
    pub message: String,
    pub error: String,
    pub attempts: u32,
    pub created_at_unix: u64,
}

#[derive(Debug, Clone, Copy, PartialEq, Eq, Structural)]
pub struct TransferResource {
    pub id: u64,
    pub server_id: u64,
    pub in_bytes: u64,
    pub out_bytes: u64,
    pub created_at: u64,
    pub updated_at: u64,
}

/// The tables whose rows are an owner and a name.
#[derive(Debug, Clone, Copy)]
pub enum NamedTable {
    ServerGroups,
    NotificationGroups,
}

impl NamedTable {
    /// The table's name.
    pub fn as_str(self) -> (r: &'static str)
        ensures
            r@ == match self {
                NamedTable::ServerGroups => "server_groups"@,
                NamedTable::NotificationGroups => "notification_groups"@,
            },
    {
        match self {
            NamedTable::ServerGroups => "server_groups",
            NamedTable::NotificationGroups => "notification_groups",
        }
    }
}

/// What an agent can be asked to do, by its number on the wire.
#[derive(Debug, Clone, Copy, PartialEq, Eq, Structural)]
pub enum TaskType {
    HttpGet,
    IcmpPing,
    TcpPing,
    Command,
    Terminal,
    Upgrade,
    Keepalive,
    TerminalGrpc,
    Nat,
    FileManager,
    ReportConfig,
    ApplyConfig,
}

/// The number of `t` on the wire.
pub open spec fn task_number(t: TaskType) -> u64 {
    match t {
        TaskType::HttpGet => 1,
        TaskType::IcmpPing => 2,
        TaskType::TcpPing => 3,
        TaskType::Command => 4,
        TaskType::Terminal => 5,
        TaskType::Upgrade => 6,
        TaskType::Keepalive => 7,
        TaskType::TerminalGrpc => 8,
        TaskType::Nat => 9,
        TaskType::FileManager => 11,
        TaskType::ReportConfig => 12,
        TaskType::ApplyConfig => 13,
    }
}

impl TaskType {
    pub fn as_u64(self) -> (r: u64)
        ensures
            r == task_number(self),
    {
        match self {
            TaskType::HttpGet => 1,
            TaskType::IcmpPing => 2,
            TaskType::TcpPing => 3,
            TaskType::Command => 4,
            TaskType::Terminal => 5,
            TaskType::Upgrade => 6,
            TaskType::Keepalive => 7,
            TaskType::TerminalGrpc => 8,
            TaskType::Nat => 9,
            TaskType::FileManager => 11,
            TaskType::ReportConfig => 12,
            TaskType::ApplyConfig => 13,
        }
    }

    /// The task with the number `n`, where there is one.
    pub fn from_u64(n: u64) -> (r: Option<TaskType>)
        ensures
            r matches Some(t) ==> task_number(t) == n,
            r is None ==> forall|t: TaskType| task_number(t) != n,
    {
        match n {
            1 => Some(TaskType::HttpGet),
            2 => Some(TaskType::IcmpPing),
            3 => Some(TaskType::TcpPing),
            4 => Some(TaskType::Command),
            5 => Some(TaskType::Terminal),
            6 => Some(TaskType::Upgrade),
            7 => Some(TaskType::Keepalive),
            8 => Some(TaskType::TerminalGrpc),
            9 => Some(TaskType::Nat),
            11 => Some(TaskType::FileManager),
            12 => Some(TaskType::ReportConfig),
            13 => Some(TaskType::ApplyConfig),
            _ => None,
        }
    }
}

/// Whether a task of number `task_type` watches a service: the three probes do.
pub fn is_service_monitor_task(task_type: u64) -> (r: bool)
    ensures
        r == (1 <= task_type <= 3),
{
    match TaskType::from_u64(task_type) {
        Some(TaskType::HttpGet) => true,
        Some(TaskType::IcmpPing) => true,
        Some(TaskType::TcpPing) => true,
        _ => {
            proof {
                assert(task_number(TaskType::HttpGet) == 1);
                assert(task_number(TaskType::IcmpPing) == 2);
                assert(task_number(TaskType::TcpPing) == 3);
            }
            false
        },
    }
}

/// No two kinds of task share a number.
pub proof fn task_numbers_differ(a: TaskType, b: TaskType)
    requires
        task_number(a) == task_number(b),
    ensures
        a == b,
{
}

/// The tasks of an agent have the numbers of the protocol: the three probes 1 to 3, then
/// commands, terminals, upgrades and signs of life, and the later ones behind them; 10 is
/// none.
pub proof fn tasks_have_the_numbers_of_the_protocol(t: TaskType)
    ensures
        task_number(TaskType::HttpGet) == 1 && task_number(TaskType::IcmpPing) == 2
            && task_number(TaskType::TcpPing) == 3,
        task_number(TaskType::Command) == 4 && task_number(TaskType::Terminal) == 5
            && task_number(TaskType::Upgrade) == 6 && task_number(TaskType::Keepalive) == 7,
        task_number(TaskType::TerminalGrpc) == 8 && task_number(TaskType::Nat) == 9,
        task_number(TaskType::FileManager) == 11 && task_number(TaskType::ReportConfig) == 12
            && task_number(TaskType::ApplyConfig) == 13,
        1 <= task_number(t) <= 13 && task_number(t) != 10,
{
}

} // verus!
