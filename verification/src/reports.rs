//! What agents report: the results of their tasks, and where they are.
use vstd::prelude::*;

use crate::{convert, decimal, history, model, scheduler, settings, text};
use crate::alerts::CRON_COVER_ALERT_TRIGGER;
use crate::convert::{i64_to_u64, wrap_i64};
use crate::decimal::to_decimal;
use crate::history::service_covers_server;
use crate::model::{
    CronResource, GeoIp, PublicServer, ServiceResource, TaskType, is_service_monitor_task,
};
use crate::scheduler::cron_covers_server;
use crate::settings::{DashboardSettings, SettingsView, ignored_ip_notification_server_ids};
use crate::text::{chars_of, concat2, same, string_of_range, to_ascii_lowercase, trim};

verus! {

/// What is done with a result.
#[derive(Debug, Clone, Copy, PartialEq, Eq, Structural)]
pub enum ResultRoute {
    /// Handed to the one who asked for the configuration.
    Config,
    /// The result of a task.
    Command,
    /// The result of a watched service.
    Service,
    /// Left alone.
    Ignored,
}

/// What is done with a result, by the number of its kind.
pub open spec fn route_of(task_type: u64) -> ResultRoute {
    if task_type == model::task_number(TaskType::ReportConfig) {
        ResultRoute::Config
    } else if task_type == model::task_number(TaskType::Command) {
        ResultRoute::Command
    } else if 1 <= task_type <= 3 {
        ResultRoute::Service
    } else {
        ResultRoute::Ignored
    }
}

/// What is done with a result, by the number of its kind.
pub fn route_result(task_type: u64) -> (r: ResultRoute)
    ensures
        r == route_of(task_type),
{
    if task_type == TaskType::ReportConfig.as_u64() {
        ResultRoute::Config
    } else if task_type == TaskType::Command.as_u64() {
        ResultRoute::Command
    } else if is_service_monitor_task(task_type) {
        ResultRoute::Service
    } else {
        ResultRoute::Ignored
    }
}

/// Whether a server may report on a service: the service is of that kind,
/// covers it, and belongs to the same user or to an administrator.
pub open spec fn may_report_service(
    service: ServiceResource,
    server: PublicServer,
    task_type: u64,
    owner_is_admin: bool,
) -> bool {
    service.service_type == task_type && history::covers(service, server.id) && (service.user_id
        == server.user_id || owner_is_admin)
}

/// Whether a server may report on a service.
pub fn can_report_service_result(
    service: &ServiceResource,
    server: &PublicServer,
    task_type: u64,
    owner_is_admin: bool,
) -> (r: bool)
    ensures
        r == may_report_service(*service, *server, task_type, owner_is_admin),
{
    service.service_type as u64 == task_type && service_covers_server(service, server.id) && (
    service.user_id == server.user_id || owner_is_admin)
}

/// Whether a server may report on a task: the task belongs to the same user or
/// to an administrator, and is for the server, or was started there by an
/// alert.
pub open spec fn may_report_cron(
    cron: CronResource,
    server: PublicServer,
    owner_is_admin: bool,
    alert_trigger_authorized: bool,
) -> bool {
    &&& cron.user_id == server.user_id || owner_is_admin
    &&& if cron.cover == CRON_COVER_ALERT_TRIGGER {
        alert_trigger_authorized
    } else {
        scheduler::is_for(cron, server.id)
    }
}

/// Whether a server may report on a task.
pub fn can_report_cron_result(
    cron: &CronResource,
    server: &PublicServer,
    owner_is_admin: bool,
    alert_trigger_authorized: bool,
) -> (r: bool)
    ensures
        r == may_report_cron(*cron, *server, owner_is_admin, alert_trigger_authorized),
{
    if !(cron.user_id == server.user_id || owner_is_admin) {
        return false;
    }
    if cron.cover == CRON_COVER_ALERT_TRIGGER {
        alert_trigger_authorized
    } else {
        cron_covers_server(cron, server.id)
    }
}

/// What is told of the result of a task.
pub open spec fn cron_text(
    cron_name: Seq<char>,
    successful: bool,
    delay: Seq<char>,
    data: Seq<char>,
) -> Seq<char> {
    let status = if successful {
        "Scheduled Task Executed Successfully"@
    } else {
        "Scheduled Task Executed Failed"@
    };
    "["@ + status + "] "@ + cron_name + ", "@ + delay + "s\n"@ + data
}

/// What is told of the result of a task; `delay` writes the seconds that it
/// took.
pub fn cron_result_message(cron_name: &str, successful: bool, delay: &str, data: &str) -> (r:
    String)
    ensures
        r@ == cron_text(cron_name@, successful, delay@, data@),
{
    let status: &str = if successful {
        "Scheduled Task Executed Successfully"
    } else {
        "Scheduled Task Executed Failed"
    };
    let mut out = concat2("[", status);
    out.append("] ");
    out.append(cron_name);
    out.append(", ");
    out.append(delay);
    out.append("s\n");
    out.append(data);
    out
}

/// The result of a task: whether it succeeded, the whole seconds that it took,
/// those seconds with three digits behind the point, and its output.
#[derive(Debug)]
pub struct CommandResult {
    pub successful: bool,
    pub whole_seconds: u64,
    pub delay: String,
    pub data: String,
}

/// What a result of a task changes: when the task ran, how it went, and to which
/// group what is told of it.
#[derive(Debug)]
pub struct CommandEffect {
    pub executed_at: i64,
    pub last_result: bool,
    pub message: Option<(u64, String)>,
}

/// What a `CommandEffect` holds.
pub struct CommandEffectView {
    pub executed_at: int,
    pub last_result: bool,
    pub message: Option<(u64, Seq<char>)>,
}

/// What a result of a task changes, where the server may report on the task.
pub open spec fn effect_of(cron: CronResource, result: CommandResult, now: u64) -> CommandEffectView {
    CommandEffectView {
        executed_at: convert::wrapped(
            if now < result.whole_seconds {
                0
            } else {
                (now - result.whole_seconds) as u64
            },
        ),
        last_result: result.successful,
        message: if !result.successful || cron.push_successful {
            Some(
                (
                    cron.notification_group_id,
                    cron_text(cron.name@, result.successful, result.delay@, result.data@),
                ),
            )
        } else {
            None
        },
    }
}

impl View for CommandEffect {
    type V = CommandEffectView;

    open spec fn view(&self) -> CommandEffectView {
        CommandEffectView {
            executed_at: self.executed_at as int,
            last_result: self.last_result,
            message: match self.message {
                Some(m) => Some((m.0, m.1@)),
                None => None,
            },
        }
    }
}

/// What a result of a task changes. The result counts only where the server may
/// report on the task, and success is told only where the task asks for it.
pub fn complete_command_result(
    cron: Option<&CronResource>,
    server: Option<&PublicServer>,
    owner_is_admin: bool,
    alert_trigger_authorized: bool,
    result: &CommandResult,
    now: u64,
) -> (r: Option<CommandEffect>)
    ensures
        r is Some <==> cron is Some && server is Some && may_report_cron(
            *cron->0,
            *server->0,
            owner_is_admin,
            alert_trigger_authorized,
        ),
        r matches Some(e) ==> e@ == effect_of(*cron->0, *result, now),
{
    match (cron, server) {
        (Some(c), Some(s)) => {
            if !can_report_cron_result(c, s, owner_is_admin, alert_trigger_authorized) {
                return None;
            }
            let at: u64 = if now < result.whole_seconds {
                0
            } else {
                now - result.whole_seconds
            };
            let message = if result.successful && !c.push_successful {
                None
            } else {
                Some(
                    (
                        c.notification_group_id,
                        cron_result_message(
                            c.name.as_str(),
                            result.successful,
                            result.delay.as_str(),
                            result.data.as_str(),
                        ),
                    ),
                )
            };
            Some(
                CommandEffect {
                    executed_at: wrap_i64(at),
                    last_result: result.successful,
                    message,
                },
            )
        },
        _ => None,
    }
}

/// The user whose agents have a secret.
pub open spec fn secret_owner(
    secret: Seq<char>,
    global_secret: Seq<char>,
    owner: Option<i64>,
) -> Option<u64> {
    if secret == global_secret {
        Some(0)
    } else {
        match owner {
            Some(id) => Some(convert::floored(id as int) as u64),
            None => None,
        }
    }
}

/// The user whose agents have a secret: the secret of the dashboard is
/// everybody's, which is user 0; `owner` is who has the secret otherwise.
pub fn agent_secret_owner(secret: &str, global_secret: &str, owner: Option<i64>) -> (r: Option<u64>)
    ensures
        r == secret_owner(secret@, global_secret@, owner),
{
    if same(secret, global_secret) {
        return Some(0);
    }
    match owner {
        Some(id) => Some(i64_to_u64(id)),
        None => None,
    }
}

/// What an agent tells under a name: nothing, something that is no text, or a
/// text.
#[derive(Debug, Clone, Copy)]
pub enum Told<'a> {
    Nothing,
    Unreadable,
    Text(&'a str),
}

/// Why an agent is refused.
#[derive(Debug, Clone, Copy, PartialEq, Eq, Structural)]
pub enum AgentError {
    MissingSecret,
    InvalidSecret,
    MissingUuid,
    InvalidUuid,
}

pub open spec fn agent_error_text(e: AgentError) -> Seq<char> {
    match e {
        AgentError::MissingSecret => "missing client_secret"@,
        AgentError::InvalidSecret => "invalid client_secret"@,
        AgentError::MissingUuid => "missing client_uuid"@,
        AgentError::InvalidUuid => "invalid client_uuid"@,
    }
}

impl AgentError {
    /// What is told of it.
    pub fn message(self) -> (r: &'static str)
        ensures
            r@ == agent_error_text(self),
    {
        match self {
            AgentError::MissingSecret => "missing client_secret",
            AgentError::InvalidSecret => "invalid client_secret",
            AgentError::MissingUuid => "missing client_uuid",
            AgentError::InvalidUuid => "invalid client_uuid",
        }
    }
}

/// The number that a text writes, with hyphens and in small letters, by the crate
/// `uuid`.
pub uninterp spec fn uuid_text(text: Seq<char>) -> Option<Seq<char>>;

/// Calls `uuid::Uuid::parse_str` and writes the number that it gives, or tells that
/// it gives none.
#[verifier::external_body]
fn uuid_parse(text: &str) -> (r: Option<String>)
    ensures
        match r {
            Some(s) => uuid_text(text@) == Some(s@),
            None => uuid_text(text@) is None,
        },
{
    uuid::Uuid::parse_str(text).ok().map(|number| number.to_string())
}

/// The secret that an agent tells, or why it is refused.
pub open spec fn told_secret(secret: Told) -> Result<Seq<char>, AgentError> {
    match secret {
        Told::Nothing => Err(AgentError::MissingSecret),
        Told::Unreadable => Err(AgentError::InvalidSecret),
        Told::Text(s) => if text::trimmed(s@).len() == 0 {
            Err(AgentError::MissingSecret)
        } else {
            Ok(text::trimmed(s@))
        },
    }
}

/// The secret that an agent tells, without white space around it.
pub fn agent_secret(secret: Told) -> (r: Result<String, AgentError>)
    ensures
        match r {
            Ok(s) => told_secret(secret) == Ok::<Seq<char>, AgentError>(s@),
            Err(e) => told_secret(secret) == Err::<Seq<char>, AgentError>(e),
        },
{
    match secret {
        Told::Nothing => Err(AgentError::MissingSecret),
        Told::Unreadable => Err(AgentError::InvalidSecret),
        Told::Text(s) => {
            let t = trim(s);
            if t.as_str().is_empty() {
                Err(AgentError::MissingSecret)
            } else {
                Ok(t)
            }
        },
    }
}

/// What speaks against an agent, in the order in which it is looked for: its
/// secret, that nobody has the secret, and its number, which `parsed` is.
pub open spec fn agent_error(
    secret: Told,
    owner: Option<u64>,
    uuid: Told,
    parsed: Option<Seq<char>>,
) -> Option<AgentError> {
    match told_secret(secret) {
        Err(e) => Some(e),
        Ok(_) => if owner is None {
            Some(AgentError::InvalidSecret)
        } else if uuid is Nothing {
            Some(AgentError::MissingUuid)
        } else if uuid is Unreadable || parsed is None {
            Some(AgentError::InvalidUuid)
        } else {
            None
        },
    }
}

/// Whom an agent belongs to and which number it has, `parsed` being the number that
/// it tells, where it is one.
pub fn admit_told_agent(secret: Told, owner: Option<u64>, uuid: Told, parsed: Option<String>) -> (r:
    Result<(u64, String), AgentError>)
    ensures
        ({
            let error = agent_error(
                secret,
                owner,
                uuid,
                match parsed {
                    Some(s) => Some(s@),
                    None => None,
                },
            );
            match r {
                Ok(agent) => error is None && Some(agent.0) == owner && Some(agent.1) == parsed,
                Err(e) => error == Some(e),
            }
        }),
{
    match agent_secret(secret) {
        Ok(_) => {},
        Err(e) => {
            return Err(e);
        },
    }
    let owner: u64 = match owner {
        Some(id) => id,
        None => {
            return Err(AgentError::InvalidSecret);
        },
    };
    match (uuid, parsed) {
        (Told::Nothing, _) => Err(AgentError::MissingUuid),
        (Told::Text(_), Some(number)) => Ok((owner, number)),
        _ => Err(AgentError::InvalidUuid),
    }
}

/// The number that an agent tells.
pub open spec fn told_uuid(uuid: Told) -> Option<Seq<char>> {
    match uuid {
        Told::Text(s) => uuid_text(s@),
        _ => None,
    }
}

/// Whom an agent belongs to, `owner` being whose secret it tells, and which number
/// it has.
pub fn check_agent(secret: Told, owner: Option<u64>, uuid: Told) -> (r: Result<
    (u64, String),
    AgentError,
>)
    ensures
        match r {
            Ok(agent) => agent_error(secret, owner, uuid, told_uuid(uuid)) is None && Some(agent.0)
                == owner && Some(agent.1@) == told_uuid(uuid),
            Err(e) => agent_error(secret, owner, uuid, told_uuid(uuid)) == Some(e),
        },
{
    let parsed = match uuid {
        Told::Text(s) => uuid_parse(s),
        _ => None,
    };
    admit_told_agent(secret, owner, uuid, parsed)
}

/// Whether an agent of a user may report for a server.
pub open spec fn reports_for(agent_user_id: u64, server_user_id: u64) -> bool {
    agent_user_id == 0 || agent_user_id == server_user_id
}

/// Whether an agent of a user may report for a server: the server is that
/// user's, or the agent has the secret of the dashboard.
pub fn agent_may_report(agent_user_id: u64, server_user_id: u64) -> (r: bool)
    ensures
        r == reports_for(agent_user_id, server_user_id),
{
    agent_user_id == 0 || agent_user_id == server_user_id
}

/// What becomes of an agent that tells the number of its server: the server is
/// known, it is not the agent's, or it is entered.
#[derive(Debug, Clone, Copy, PartialEq, Eq, Structural)]
pub enum Admission {
    Known,
    Refused,
    Entered,
}

/// What becomes of an agent of a user, by the owner of the server that has the
/// number it tells.
pub open spec fn admission(agent_user_id: u64, owner: Option<u64>) -> Admission {
    match owner {
        Some(id) => if reports_for(agent_user_id, id) {
            Admission::Known
        } else {
            Admission::Refused
        },
        None => Admission::Entered,
    }
}

/// What becomes of an agent of a user.
pub fn admit_agent(agent_user_id: u64, owner: Option<u64>) -> (r: Admission)
    ensures
        r == admission(agent_user_id, owner),
{
    match owner {
        Some(id) => if agent_may_report(agent_user_id, id) {
            Admission::Known
        } else {
            Admission::Refused
        },
        None => Admission::Entered,
    }
}

/// An agent whose server was entered, for the user of the agent, is known from
/// there on, and no agent of another user takes its place.
pub proof fn entered_servers_stay(agent_user_id: u64, other: u64)
    requires
        other != 0,
        other != agent_user_id,
    ensures
        admission(agent_user_id, Some(agent_user_id)) == Admission::Known,
        admission(other, Some(agent_user_id)) == Admission::Refused,
{
}

/// The name that a new server is given: the first digits of its number.
pub fn pet_name(simple_uuid: &str) -> (r: String)
    requires
        simple_uuid@.len() >= 8,
    ensures
        r@ == "server-"@ + simple_uuid@.take(8),
{
    let chars = chars_of(simple_uuid);
    let start = string_of_range(&chars, 0, 8);
    proof {
        assert(start@ =~= simple_uuid@.take(8));
    }
    concat2("server-", start.as_str())
}

/// What is kept: everything from these times on.
#[derive(Debug, Clone, Copy, PartialEq, Eq, Structural)]
pub struct Cutoffs {
    pub metrics_ms: u64,
    pub history_s: u64,
    pub transfers_s: u64,
    pub waf_s: u64,
}

/// `now` less `back`, but not less than zero.
pub open spec fn ago(now: u64, back: nat) -> int {
    if now < back {
        0
    } else {
        now - back
    }
}

/// What is kept when the database is tidied up.
pub open spec fn kept_from(now_ms: u64, now_s: u64) -> Cutoffs {
    Cutoffs {
        metrics_ms: ago(now_ms, 30 * 86_400_000) as u64,
        history_s: ago(now_s, 30 * 86_400) as u64,
        transfers_s: ago(now_s, 90 * 86_400) as u64,
        waf_s: ago(now_s, 30 * 86_400) as u64,
    }
}

/// What is kept when the database is tidied up: thirty days, and ninety of the
/// transfers.
pub fn maintenance_cutoffs(now_ms: u64, now_s: u64) -> (r: Cutoffs)
    ensures
        r == kept_from(now_ms, now_s),
        r.metrics_ms == ago(now_ms, 30 * 86_400_000),
        r.history_s == ago(now_s, 30 * 86_400),
        r.transfers_s == ago(now_s, 90 * 86_400),
        r.waf_s == ago(now_s, 30 * 86_400),
{
    Cutoffs {
        metrics_ms: now_ms.saturating_sub(2_592_000_000),
        history_s: now_s.saturating_sub(2_592_000),
        transfers_s: now_s.saturating_sub(7_776_000),
        waf_s: now_s.saturating_sub(2_592_000),
    }
}

/// The addresses of an agent as one text.
pub open spec fn addresses_text(geoip: GeoIp) -> Seq<char> {
    match geoip.ip {
        Some(ip) => if ip.ipv4@.len() > 0 && ip.ipv6@.len() > 0 {
            ip.ipv4@ + "/"@ + ip.ipv6@
        } else if ip.ipv4@.len() > 0 {
            ip.ipv4@
        } else {
            ip.ipv6@
        },
        None => seq![],
    }
}

/// The addresses of an agent as one text.
pub fn geoip_ip_string(geoip: &GeoIp) -> (r: String)
    ensures
        r@ == addresses_text(*geoip),
{
    match &geoip.ip {
        Some(ip) => {
            if !ip.ipv4.as_str().is_empty() && !ip.ipv6.as_str().is_empty() {
                let mut out = concat2(ip.ipv4.as_str(), "/");
                out.append(ip.ipv6.as_str());
                out
            } else if !ip.ipv4.as_str().is_empty() {
                ip.ipv4.as_str().to_owned()
            } else {
                ip.ipv6.as_str().to_owned()
            }
        },
        None => {
            let out = String::new();
            proof {
                assert(out@ =~= seq![]);
            }
            out
        },
    }
}

/// The address by which an agent is located.
pub open spec fn lookup_address(geoip: GeoIp) -> Option<Seq<char>> {
    match geoip.ip {
        Some(ip) => if ip.ipv6@.len() > 0 && (geoip.use6 || ip.ipv4@.len() == 0) {
            Some(ip.ipv6@)
        } else {
            Some(ip.ipv4@)
        },
        None => None,
    }
}

/// The address by which an agent is located: the longer one where it is
/// preferred or the only one.
pub fn geoip_lookup_text(geoip: &GeoIp) -> (r: Option<String>)
    ensures
        match r {
            Some(s) => lookup_address(*geoip) == Some(s@),
            None => lookup_address(*geoip) is None,
        },
{
    match &geoip.ip {
        Some(ip) => {
            if !ip.ipv6.as_str().is_empty() && (geoip.use6 || ip.ipv4.as_str().is_empty()) {
                Some(ip.ipv6.as_str().to_owned())
            } else {
                Some(ip.ipv4.as_str().to_owned())
            }
        },
        None => None,
    }
}

/// The code of the country that an agent is in.
pub open spec fn code_of(country: Option<Seq<char>>, continent: Option<Seq<char>>) -> Option<
    Seq<char>,
> {
    let code = if country is Some {
        country
    } else {
        continent
    };
    if code is Some && text::trimmed(code->0).len() > 0 {
        Some(text::lowered(text::trimmed(code->0)))
    } else {
        None
    }
}

/// The text that is lent.
pub open spec fn lent(s: Option<&str>) -> Option<Seq<char>> {
    match s {
        Some(t) => Some(t@),
        None => None,
    }
}

/// The code of the country that an agent is in: that of the country or, where
/// the place has none, that of the continent.
pub fn country_code(country: Option<&str>, continent: Option<&str>) -> (r: Option<String>)
    ensures
        match r {
            Some(s) => code_of(lent(country), lent(continent)) == Some(s@),
            None => code_of(lent(country), lent(continent)) is None,
        },
{
    let code: &str = match country {
        Some(c) => c,
        None => match continent {
            Some(c) => c,
            None => {
                return None;
            },
        },
    };
    let t = trim(code);
    if t.as_str().is_empty() {
        None
    } else {
        Some(to_ascii_lowercase(t.as_str()))
    }
}

/// Whether a list of numbers has one.
pub fn csv_u64_contains(raw: &str, needle: u64) -> (r: bool)
    ensures
        r == settings::ignored_ids(raw@).contains(needle),
{
    broadcast use vstd::std_specs::hash::group_hash_axioms;

    let ids = ignored_ip_notification_server_ids(raw);
    ids.contains_key(&needle)
}

/// Whether a change of address is told: changes are told at all, to some group,
/// there was an address and is another one, and the server is not kept quiet.
pub open spec fn tells_change(
    s: SettingsView,
    server_id: u64,
    previous_ip: Seq<char>,
    current_ip: Seq<char>,
) -> bool {
    let listed = settings::ignored_ids(s.ignored_ip_notification).contains(server_id);
    &&& s.enable_ip_change_notification
    &&& s.ip_change_notification_group_id != 0
    &&& previous_ip.len() > 0
    &&& current_ip.len() > 0
    &&& previous_ip != current_ip
    &&& (s.cover == 0 && !listed) || (s.cover == 1 && listed)
}

/// Whether a change of address is told.
pub fn should_send_ip_change_notification(
    settings: &DashboardSettings,
    server_id: u64,
    previous_ip: &str,
    current_ip: &str,
) -> (r: bool)
    ensures
        r == tells_change(settings@, server_id, previous_ip@, current_ip@),
{
    if !settings.enable_ip_change_notification || settings.ip_change_notification_group_id == 0
        || previous_ip.is_empty() || current_ip.is_empty() || same(previous_ip, current_ip) {
        return false;
    }
    let selected = csv_u64_contains(settings.ignored_ip_notification.as_str(), server_id);
    if settings.cover == 0 {
        !selected
    } else if settings.cover == 1 {
        selected
    } else {
        false
    }
}

/// What is told of a change of address.
pub fn ip_change_message(server_id: u64, previous_ip: &str, current_ip: &str) -> (r: String)
    ensures
        r@ == "[IP Changed] server "@ + decimal::decimal(server_id as nat) + ": "@ + previous_ip@ + " -> "@
            + current_ip@,
{
    let id = to_decimal(server_id);
    let mut out = concat2("[IP Changed] server ", id.as_str());
    out.append(": ");
    out.append(previous_ip);
    out.append(" -> ");
    out.append(current_ip);
    out
}

/// Whether the names of a server are to be moved to its new address.
pub open spec fn moves_names(enable_ddns: bool, previous_ip: Seq<char>, current_ip: Seq<char>) -> bool {
    enable_ddns && current_ip.len() > 0 && current_ip != previous_ip
}

/// Whether the names of a server are to be moved to its new address.
pub fn wants_ddns_update(enable_ddns: bool, previous_ip: &str, current_ip: &str) -> (r: bool)
    ensures
        r == moves_names(enable_ddns, previous_ip@, current_ip@),
{
    enable_ddns && !current_ip.is_empty() && !same(current_ip, previous_ip)
}

/// A change of address that is told is a change, and is told once: the next
/// report of the same address tells nothing.
pub proof fn steady_addresses_are_quiet(s: SettingsView, server_id: u64, ip: Seq<char>)
    ensures
        !tells_change(s, server_id, ip, ip),
{
}

/// A task that an alert starts is reported on only where it was started.
pub proof fn results_of_alerts_are_authorized(
    cron: CronResource,
    server: PublicServer,
    owner_is_admin: bool,
)
    requires
        cron.cover == CRON_COVER_ALERT_TRIGGER,
    ensures
        !may_report_cron(cron, server, owner_is_admin, false),
{
}

/// What a report of an agent's addresses brings about: what is told to which
/// group, and whether the names of the server move to these addresses.
#[derive(Debug)]
pub struct GeoEffect {
    pub notification: Option<(u64, String)>,
    pub update_ddns: bool,
    pub ipv4: String,
    pub ipv6: String,
}

/// The addresses as text; none where nothing is known.
pub open spec fn known_addresses(geoip: Option<&GeoIp>) -> Seq<char> {
    match geoip {
        Some(g) => addresses_text(*g),
        None => seq![],
    }
}

/// A report as it is kept: with the time at which the dashboard was started,
/// and, where its address is one, the country that it is in.
pub fn locate(
    geo: GeoIp,
    boot_time: u64,
    address_is_valid: bool,
    country: Option<String>,
) -> (r: GeoIp)
    ensures
        r.use6 == geo.use6,
        r.ip == geo.ip,
        r.dashboard_boot_time == boot_time,
        r.country_code@ == if address_is_valid {
            settings::text_or(country, seq![])
        } else {
            geo.country_code@
        },
{
    let mut located = geo;
    located.dashboard_boot_time = boot_time;
    if address_is_valid {
        located.country_code =
        match country {
            Some(c) => c,
            None => {
                let none = String::new();
                proof {
                    assert(none@ =~= seq![]);
                }
                none
            },
        };
    }
    located
}

/// What is told of a report of an agent's addresses, and to which group.
pub open spec fn change_told(
    s: SettingsView,
    server_id: u64,
    before: Seq<char>,
    now: Seq<char>,
) -> Option<(u64, Seq<char>)> {
    if tells_change(s, server_id, before, now) {
        Some(
            (
                s.ip_change_notification_group_id,
                "[IP Changed] server "@ + decimal::decimal(server_id as nat) + ": "@ + before
                    + " -> "@ + now,
            ),
        )
    } else {
        None
    }
}

/// What a report of an agent's addresses brings about.
pub fn report_geo_ip(
    settings: &DashboardSettings,
    server_id: u64,
    enable_ddns: bool,
    previous: Option<&GeoIp>,
    current: &GeoIp,
) -> (r: GeoEffect)
    ensures
        ({
            let before = known_addresses(previous);
            let now = addresses_text(*current);
            &&& match r.notification {
                Some(n) => change_told(settings@, server_id, before, now) == Some((n.0, n.1@)),
                None => change_told(settings@, server_id, before, now) is None,
            }
            &&& r.update_ddns == moves_names(enable_ddns, before, now)
            &&& match current.ip {
                Some(ip) => r.ipv4@ == ip.ipv4@ && r.ipv6@ == ip.ipv6@,
                None => r.ipv4@.len() == 0 && r.ipv6@.len() == 0,
            }
        }),
{
    let before = match previous {
        Some(g) => geoip_ip_string(g),
        None => {
            let none = String::new();
            proof {
                assert(none@ =~= seq![]);
            }
            none
        },
    };
    let now = geoip_ip_string(current);
    let notification = if should_send_ip_change_notification(
        settings,
        server_id,
        before.as_str(),
        now.as_str(),
    ) {
        Some(
            (
                settings.ip_change_notification_group_id,
                ip_change_message(server_id, before.as_str(), now.as_str()),
            ),
        )
    } else {
        None
    };
    let update_ddns = wants_ddns_update(enable_ddns, before.as_str(), now.as_str());
    let (ipv4, ipv6) = match &current.ip {
        Some(ip) => (ip.ipv4.as_str().to_owned(), ip.ipv6.as_str().to_owned()),
        None => (String::new(), String::new()),
    };
    GeoEffect { notification, update_ddns, ipv4, ipv6 }
}

/// The results of the three probes count for services, those of commands for
/// tasks, and configurations go to whoever asked; nothing else is looked at.
pub proof fn results_are_routed_by_their_kind(t: TaskType, other: u64)
    ensures
        route_of(model::task_number(t)) == match t {
            TaskType::HttpGet | TaskType::IcmpPing | TaskType::TcpPing => ResultRoute::Service,
            TaskType::Command => ResultRoute::Command,
            TaskType::ReportConfig => ResultRoute::Config,
            _ => ResultRoute::Ignored,
        },
        (forall|k: TaskType| model::task_number(k) != other) ==> route_of(other)
            == ResultRoute::Ignored,
{
    assert(model::task_number(TaskType::HttpGet) == 1);
    assert(model::task_number(TaskType::IcmpPing) == 2);
    assert(model::task_number(TaskType::TcpPing) == 3);
}

/// A server may report on a service exactly where the service has that server
/// watch it, with a result of the service's own kind.
pub proof fn watchers_may_report(
    service: ServiceResource,
    server: PublicServer,
    task_type: u64,
    owner_is_admin: bool,
)
    ensures
        may_report_service(service, server, task_type, owner_is_admin) <==> task_type
            == service.service_type && scheduler::watchers(
            service,
            seq![server],
            owner_is_admin,
        ).len() == 1,
{
    let one = seq![server];
    assert(one.drop_last() =~= seq![]);
    assert(scheduler::watchers(service, one.drop_last(), owner_is_admin).len() == 0);
}

/// A server of the owner of a scheduled task may report on it exactly where the
/// task goes to that server; a task that alerts start, exactly where one started it
/// there. On the tasks of others a server reports only where their owner is an
/// administrator.
pub proof fn servers_report_on_tasks_they_were_sent(
    cron: CronResource,
    server: PublicServer,
    owner_is_admin: bool,
    started: bool,
)
    ensures
        cron.user_id == server.user_id && cron.cover != 2 ==> (may_report_cron(
            cron,
            server,
            owner_is_admin,
            started,
        ) <==> scheduler::cron_servers(cron, seq![server]).len() == 1),
        cron.user_id == server.user_id && cron.cover == 2 ==> may_report_cron(
            cron,
            server,
            owner_is_admin,
            started,
        ) == started,
        cron.user_id != server.user_id ==> !may_report_cron(cron, server, false, started),
        may_report_cron(cron, server, true, started) == may_report_cron(
            (CronResource { user_id: server.user_id, ..cron }),
            server,
            false,
            started,
        ),
{
    let one = seq![server];
    assert(one.drop_last() =~= seq![]);
    assert(scheduler::cron_servers(cron, one.drop_last()).len() == 0);
}

/// A task is entered as run at the time of its result less the seconds that it
/// took. Failure is told always and success where the task asks for it, to the
/// task's group.
pub proof fn results_are_told_as_the_task_asks(cron: CronResource, result: CommandResult, now: u64)
    requires
        now <= i64::MAX,
    ensures
        ({
            let effect = effect_of(cron, result, now);
            &&& result.whole_seconds <= now ==> effect.executed_at + result.whole_seconds == now
            &&& result.whole_seconds > now ==> effect.executed_at == 0
            &&& effect.last_result == result.successful
            &&& !result.successful ==> effect.message is Some
            &&& result.successful ==> (effect.message is Some <==> cron.push_successful)
            &&& effect.message matches Some(m) ==> m.0 == cron.notification_group_id
                && result.data@.is_suffix_of(m.1)
        }),
{
    let effect = effect_of(cron, result, now);
    if let Some(m) = effect.message {
        assert(m.1.skip(m.1.len() - result.data@.len()) =~= result.data@);
    }
}

/// The secret of the dashboard is that of number 0, whoever else has it; any other
/// is its owner's, and one that nobody has is nobody's.
pub proof fn secrets_tell_their_owner(secret: Seq<char>, global_secret: Seq<char>, owner: i64)
    requires
        owner >= 0,
    ensures
        secret_owner(global_secret, global_secret, Some(owner)) == Some(0u64),
        secret != global_secret ==> secret_owner(secret, global_secret, Some(owner)) == Some(
            owner as u64,
        ),
        secret != global_secret ==> secret_owner(secret, global_secret, None) is None,
{
}

/// An agent is admitted exactly where it tells a secret that is not blank and that
/// somebody has, and a text that writes a number.
pub proof fn agents_need_a_secret_and_a_number(
    secret: Told,
    owner: Option<u64>,
    uuid: Told,
    parsed: Option<Seq<char>>,
)
    ensures
        agent_error(secret, owner, uuid, parsed) is None <==> (secret matches Told::Text(s)
            && text::trimmed(s@).len() > 0) && owner is Some && uuid is Text && parsed is Some,
        agent_error(secret, owner, uuid, parsed) == Some(AgentError::InvalidSecret) <==> (secret
            is Unreadable) || ((secret matches Told::Text(s) && text::trimmed(s@).len() > 0)
            && owner is None),
{
}

/// The agents of a user report for the servers of that user alone, those with the
/// secret of the dashboard for all.
pub proof fn agents_report_for_their_user(agent_user_id: u64, server_user_id: u64)
    requires
        agent_user_id != 0,
    ensures
        reports_for(0, server_user_id),
        reports_for(agent_user_id, server_user_id) <==> agent_user_id == server_user_id,
        admission(agent_user_id, Some(server_user_id)) == Admission::Known <==> agent_user_id
            == server_user_id,
        admission(agent_user_id, None) == Admission::Entered,
        admission(0, Some(server_user_id)) == Admission::Known,
{
}

/// Thirty days of measures, results and blocks are kept, and three times as much of
/// the transfers.
pub proof fn ninety_days_of_transfers_are_kept(now_ms: u64, now_s: u64)
    requires
        now_s >= 90 * 24 * 60 * 60,
        now_ms == now_s * 1000,
    ensures
        ({
            let kept = kept_from(now_ms, now_s);
            &&& now_s - kept.history_s == 30 * 24 * 60 * 60
            &&& kept.metrics_ms == kept.history_s * 1000
            &&& kept.waf_s == kept.history_s
            &&& now_s - kept.transfers_s == 3 * (now_s - kept.history_s)
        }),
{
}

/// An agent with one address is located by it, and one with two by the longer
/// where that is preferred; of both the shorter is told first.
pub proof fn addresses_are_told_and_looked_up(geoip: GeoIp)
    requires
        geoip.ip is Some,
    ensures
        ({
            let v4 = (geoip.ip->0).ipv4@;
            let v6 = (geoip.ip->0).ipv6@;
            &&& v6.len() == 0 ==> lookup_address(geoip) == Some(v4) && addresses_text(geoip) == v4
            &&& v4.len() == 0 ==> lookup_address(geoip) == Some(v6) && addresses_text(geoip) == v6
            &&& v4.len() > 0 && v6.len() > 0 ==> lookup_address(geoip) == Some(
                if geoip.use6 {
                    v6
                } else {
                    v4
                },
            )
            &&& v4.len() > 0 && v6.len() > 0 ==> v4.is_prefix_of(addresses_text(geoip))
                && v6.is_suffix_of(addresses_text(geoip)) && addresses_text(geoip).len() == v4.len()
                + 1 + v6.len() && addresses_text(geoip)[v4.len() as int] == '/'
        }),
{
    let v4 = (geoip.ip->0).ipv4@;
    let v6 = (geoip.ip->0).ipv6@;
    reveal_strlit("/");
    if v6.len() == 0 && v4.len() == 0 {
        assert(v4 =~= v6);
    }
    if v4.len() > 0 && v6.len() > 0 {
        let all = addresses_text(geoip);
        assert(all.take(v4.len() as int) =~= v4);
        assert(all.skip(all.len() - v6.len()) =~= v6);
    }
}

/// The code of the country counts before that of the continent.
pub proof fn countries_count_before_continents(country: Seq<char>, continent: Option<Seq<char>>)
    ensures
        text::trimmed(country).len() > 0 ==> code_of(Some(country), continent) == Some(
            text::lowered(text::trimmed(country)),
        ),
        code_of(None, Some(country)) == code_of(Some(country), continent),
        code_of(None, None) is None,
{
}

/// Where changes of address are told to some group, a change from one address to
/// another is told of every server but those listed under cover 0, of those listed
/// under cover 1, and of none under another cover. Going back is told as well.
pub proof fn changes_of_address_are_told(
    s: SettingsView,
    server_id: u64,
    from: Seq<char>,
    to: Seq<char>,
)
    requires
        from.len() > 0,
        to.len() > 0,
        from != to,
    ensures
        ({
            let on = s.enable_ip_change_notification && s.ip_change_notification_group_id != 0;
            let listed = settings::ignored_ids(s.ignored_ip_notification).contains(server_id);
            &&& !on ==> !tells_change(s, server_id, from, to)
            &&& on && s.cover == 0 ==> tells_change(s, server_id, from, to) == !listed
            &&& on && s.cover == 1 ==> tells_change(s, server_id, from, to) == listed
            &&& s.cover > 1 ==> !tells_change(s, server_id, from, to)
            &&& tells_change(s, server_id, from, to) == tells_change(s, server_id, to, from)
            &&& !tells_change(s, server_id, seq![], to)
            &&& !tells_change(s, server_id, from, seq![])
        }),
{
}

/// The names of a server move with its address where that is switched on: to every
/// new address, the first as well, and not where the address stays or is lost.
pub proof fn names_move_with_the_address(from: Seq<char>, to: Seq<char>)
    ensures
        !moves_names(false, from, to),
        to.len() > 0 && from != to ==> moves_names(true, from, to),
        !moves_names(true, to, to),
        !moves_names(true, from, seq![]),
{
}

/// A change of address that is told goes to the group that is set for it, and tells the
/// server, the address before and the address now, in this order.
pub proof fn changes_are_told_to_their_group(
    s: SettingsView,
    server_id: u64,
    from: Seq<char>,
    to: Seq<char>,
)
    ensures
        change_told(s, server_id, from, to) is Some <==> tells_change(s, server_id, from, to),
        change_told(s, server_id, from, to) matches Some(told) ==> {
            &&& told.0 == s.ip_change_notification_group_id
            &&& told.0 != 0
            &&& (from + " -> "@ + to).is_suffix_of(told.1)
            &&& ("[IP Changed] server "@ + decimal::decimal(server_id as nat) + ": "@).is_prefix_of(
                told.1,
            )
        },
{
    if let Some(told) = change_told(s, server_id, from, to) {
        let back = from + " -> "@ + to;
        let front = "[IP Changed] server "@ + decimal::decimal(server_id as nat) + ": "@;
        assert(told.1.skip(told.1.len() - back.len()) =~= back);
        assert(told.1.take(front.len() as int) =~= front);
    }
}

/// What is told of a result says whether the task succeeded, then names the task, the
/// seconds that it took, and on a line of its own its output.
pub proof fn results_say_whether_they_succeeded(
    name: Seq<char>,
    delay: Seq<char>,
    data: Seq<char>,
)
    ensures
        cron_text(name, true, delay, data) == "[Scheduled Task Executed Successfully] "@ + name
            + ", "@ + delay + "s\n"@ + data,
        cron_text(name, false, delay, data) == "[Scheduled Task Executed Failed] "@ + name + ", "@
            + delay + "s\n"@ + data,
{
    reveal_strlit("[");
    reveal_strlit("] ");
    reveal_strlit("Scheduled Task Executed Successfully");
    reveal_strlit("Scheduled Task Executed Failed");
    reveal_strlit("[Scheduled Task Executed Successfully] ");
    reveal_strlit("[Scheduled Task Executed Failed] ");
    assert("["@ + "Scheduled Task Executed Successfully"@ + "] "@
        =~= "[Scheduled Task Executed Successfully] "@);
    assert("["@ + "Scheduled Task Executed Failed"@ + "] "@
        =~= "[Scheduled Task Executed Failed] "@);
}

} // verus!
