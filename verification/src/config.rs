//! How the dashboard is set up: the command line, the environment and the
//! configuration file, in this order.
use vstd::prelude::*;

use crate::{decimal, json, search, settings, text, users};
use crate::decimal::to_decimal;
use crate::search::contains;
use crate::settings::{
    DashboardSettings, OAuth2Config, SettingsView, set_text, settings_from_state_defaults,
};
use crate::text::{concat2, same, starts_with, trim};
use crate::users::generated_secret;

verus! {

/// What the configuration file may say.
#[derive(Debug)]
pub struct DashboardConfigFile {
    pub language: Option<String>,
    pub site_name: Option<String>,
    pub custom_code: Option<String>,
    pub custom_code_dashboard: Option<String>,
    pub install_host: Option<String>,
    pub tls: Option<bool>,
    pub dns_servers: Option<String>,
    pub ignored_ip_notification: Option<String>,
    pub ip_change_notification_group_id: Option<u64>,
    pub cover: Option<u8>,
    pub web_real_ip_header: Option<String>,
    pub agent_real_ip_header: Option<String>,
    pub user_template: Option<String>,
    pub admin_template: Option<String>,
    pub enable_ip_change_notification: Option<bool>,
    pub enable_plain_ip_in_notification: Option<bool>,
    pub force_auth: Option<bool>,
    pub debug: Option<bool>,
    pub agent_secret_key: Option<String>,
    pub jwt_secret_key: Option<String>,
    pub jwt_timeout: Option<u64>,
    pub listen_host: Option<String>,
    pub listen_port: Option<u16>,
    pub trust_proxy_headers: Option<bool>,
    pub oauth2: Option<Vec<(String, OAuth2Config)>>,
}

impl DashboardConfigFile {
    /// Whether no name occurs twice among the providers.
    pub open spec fn wf(self) -> bool {
        self.oauth2 matches Some(v) ==> settings::provider_names(v@).no_duplicates()
    }
}

/// What the command line says, and the two secrets of the environment. The
/// address is written as it is bound.
#[derive(Debug)]
pub struct DashboardArgs {
    pub http_bind: String,
    pub client_secret: Option<String>,
    pub agent_secret_env: Option<String>,
    pub jwt_secret: Option<String>,
    pub jwt_secret_env: Option<String>,
    pub jwt_timeout: Option<u64>,
    pub site_name: Option<String>,
    pub debug: bool,
    pub force_auth: bool,
    pub trust_proxy_headers: bool,
    pub install_host: String,
}

/// How the dashboard is set up.
#[derive(Debug)]
pub struct ResolvedDashboardConfig {
    pub client_secret: String,
    pub jwt_secret: String,
    pub jwt_timeout: u64,
    pub http_bind: String,
    pub site_name: String,
    pub debug: bool,
    pub force_auth: bool,
    pub agent_tls: bool,
    pub install_host: String,
    pub trust_proxy_headers: bool,
    pub initial_settings: DashboardSettings,
}

/// A text without white space around it, if anything is left.
pub open spec fn filled(value: Option<String>) -> Option<Seq<char>> {
    match value {
        Some(s) => if text::trimmed(s@).len() == 0 {
            None
        } else {
            Some(text::trimmed(s@))
        },
        None => None,
    }
}

/// A text without white space around it, if anything is left.
pub fn non_empty_opt(value: Option<String>) -> (r: Option<String>)
    ensures
        match r {
            Some(s) => filled(value) == Some(s@),
            None => filled(value) is None,
        },
{
    match value {
        Some(s) => {
            let t = trim(s.as_str());
            if t.as_str().is_empty() {
                None
            } else {
                Some(t)
            }
        },
        None => None,
    }
}

/// The settings that a new dashboard starts with.
pub open spec fn initial_view(
    file: DashboardConfigFile,
    site_name: Seq<char>,
    install_host: Seq<char>,
    agent_tls: bool,
) -> SettingsView {
    let d = settings::default_settings();
    SettingsView {
        language: settings::text_or(file.language, d.language),
        site_name,
        custom_code: settings::text_or(file.custom_code, d.custom_code),
        custom_code_dashboard: settings::text_or(file.custom_code_dashboard, d.custom_code_dashboard),
        install_host,
        tls: agent_tls,
        dns_servers: settings::text_or(file.dns_servers, d.dns_servers),
        ignored_ip_notification: settings::text_or(
            file.ignored_ip_notification,
            d.ignored_ip_notification,
        ),
        ip_change_notification_group_id: json::or_else(
            file.ip_change_notification_group_id,
            d.ip_change_notification_group_id,
        ),
        cover: match file.cover {
            Some(c) => if c == 0 {
                1
            } else {
                c
            },
            None => d.cover,
        },
        web_real_ip_header: settings::text_or(file.web_real_ip_header, d.web_real_ip_header),
        agent_real_ip_header: settings::text_or(file.agent_real_ip_header, d.agent_real_ip_header),
        user_template: settings::text_or(file.user_template, d.user_template),
        admin_template: settings::text_or(file.admin_template, d.admin_template),
        enable_ip_change_notification: json::or_else(file.enable_ip_change_notification, false),
        enable_plain_ip_in_notification: json::or_else(file.enable_plain_ip_in_notification, false),
        oauth2: match file.oauth2 {
            Some(v) => settings::providers(v@),
            None => d.oauth2,
        },
        ..d
    }
}

/// The settings that a new dashboard starts with.
pub fn initial_dashboard_settings(
    file: DashboardConfigFile,
    site_name: &str,
    install_host: &str,
    agent_tls: bool,
) -> (r: DashboardSettings)
    requires
        file.wf(),
    ensures
        r@ == initial_view(file, site_name@, install_host@, agent_tls),
        r.wf(),
{
    let mut settings = settings_from_state_defaults(site_name, install_host, agent_tls);
    set_text(&mut settings.language, file.language);
    set_text(&mut settings.custom_code, file.custom_code);
    set_text(&mut settings.custom_code_dashboard, file.custom_code_dashboard);
    set_text(&mut settings.dns_servers, file.dns_servers);
    set_text(&mut settings.ignored_ip_notification, file.ignored_ip_notification);
    settings.ip_change_notification_group_id =
    file.ip_change_notification_group_id.unwrap_or(settings.ip_change_notification_group_id);
    if let Some(value) = file.cover {
        settings.cover = if value == 0 {
            1
        } else {
            value
        };
    }
    set_text(&mut settings.web_real_ip_header, file.web_real_ip_header);
    set_text(&mut settings.agent_real_ip_header, file.agent_real_ip_header);
    set_text(&mut settings.user_template, file.user_template);
    set_text(&mut settings.admin_template, file.admin_template);
    settings.enable_ip_change_notification =
    file.enable_ip_change_notification.unwrap_or(settings.enable_ip_change_notification);
    settings.enable_plain_ip_in_notification =
    file.enable_plain_ip_in_notification.unwrap_or(settings.enable_plain_ip_in_notification);
    if let Some(value) = file.oauth2 {
        settings.oauth2 = value;
    }
    settings
}

/// The address of the web server that the configuration file gives.
pub open spec fn bind_text(listen_host: Option<String>, listen_port: Option<u16>) -> Seq<char> {
    let host = settings::text_or(listen_host, "0.0.0.0"@);
    let port = decimal::decimal(json::or_else(listen_port, 8008) as nat);
    if search::occurs(host, ":"@) && !"["@.is_prefix_of(host) {
        "["@ + host + "]:"@ + port
    } else {
        host + ":"@ + port
    }
}

/// The address of the web server that the configuration file gives. An IPv6
/// address is put in brackets.
pub fn config_http_bind(file: &DashboardConfigFile) -> (r: String)
    ensures
        r@ == bind_text(file.listen_host, file.listen_port),
{
    let host: &str = match &file.listen_host {
        Some(h) => h.as_str(),
        None => "0.0.0.0",
    };
    let port: u16 = match file.listen_port {
        Some(p) => p,
        None => 8008,
    };
    let number = to_decimal(port as u64);
    if contains(host, ":") && !starts_with(host, "[") {
        let mut raw = concat2("[", host);
        raw.append("]:");
        raw.append(number.as_str());
        raw
    } else {
        let mut raw = concat2(host, ":");
        raw.append(number.as_str());
        raw
    }
}

/// A secret that is given: by the command line, else by the environment, else
/// by the configuration file, where it is not empty.
pub open spec fn given_secret(
    arg: Option<String>,
    env: Option<String>,
    file: Option<String>,
) -> Option<Seq<char>> {
    if arg is Some {
        Some(arg->0@)
    } else if env is Some {
        Some(env->0@)
    } else {
        filled(file)
    }
}

/// Whether a secret is the one that is given or, where none is, a random one.
pub open spec fn secret_is_good(given: Option<Seq<char>>, secret: Seq<char>, len: nat) -> bool {
    match given {
        Some(s) => secret == s,
        None => secret.len() == len && users::all_hex(secret),
    }
}

fn choose_secret(
    arg: Option<String>,
    env: Option<String>,
    file: Option<String>,
    chars: usize,
) -> (r: String)
    ensures
        secret_is_good(given_secret(arg, env, file), r@, chars as nat),
{
    match arg {
        Some(s) => s,
        None => match env {
            Some(s) => s,
            None => match non_empty_opt(file) {
                Some(s) => s,
                None => generated_secret(chars),
            },
        },
    }
}

/// For how many hours a token is good.
pub open spec fn token_hours(arg: Option<u64>, file: Option<u64>) -> u64 {
    let hours = json::or_else(arg, json::or_else(file, 1));
    if hours < 1 {
        1
    } else {
        hours
    }
}

/// Settles how the dashboard is set up.
pub fn resolve_dashboard_config(args: DashboardArgs, file: DashboardConfigFile) -> (r:
    ResolvedDashboardConfig)
    requires
        file.wf(),
    ensures
        secret_is_good(
            given_secret(args.client_secret, args.agent_secret_env, file.agent_secret_key),
            r.client_secret@,
            32,
        ),
        secret_is_good(
            given_secret(args.jwt_secret, args.jwt_secret_env, file.jwt_secret_key),
            r.jwt_secret@,
            128,
        ),
        r.jwt_timeout == token_hours(args.jwt_timeout, file.jwt_timeout),
        r.http_bind@ == if args.http_bind@ == "0.0.0.0:8008"@ {
            bind_text(file.listen_host, file.listen_port)
        } else {
            args.http_bind@
        },
        r.site_name@ == settings::text_or(args.site_name, settings::text_or(file.site_name, "Nezha"@)),
        r.debug == (args.debug || file.debug == Some(true)),
        r.force_auth == (args.force_auth || file.force_auth == Some(true)),
        r.trust_proxy_headers == (args.trust_proxy_headers || file.trust_proxy_headers == Some(
            true,
        )),
        r.agent_tls == (file.tls == Some(true)),
        r.install_host@ == if args.install_host@.len() > 0 {
            args.install_host@
        } else {
            settings::text_or(file.install_host, seq![])
        },
        r.initial_settings@ == initial_view(
            file,
            r.site_name@,
            r.install_host@,
            r.agent_tls,
        ),
        r.initial_settings.wf(),
{
    let ghost given = file;
    let http_bind = if same(args.http_bind.as_str(), "0.0.0.0:8008") {
        config_http_bind(&file)
    } else {
        args.http_bind
    };
    let mut file = file;
    let client_secret = choose_secret(
        args.client_secret,
        args.agent_secret_env,
        file.agent_secret_key.take(),
        32,
    );
    let jwt_secret = choose_secret(
        args.jwt_secret,
        args.jwt_secret_env,
        file.jwt_secret_key.take(),
        128,
    );
    let hours: u64 = match args.jwt_timeout {
        Some(h) => h,
        None => file.jwt_timeout.unwrap_or(1),
    };
    let jwt_timeout: u64 = if hours < 1 {
        1
    } else {
        hours
    };
    let site_name = match args.site_name {
        Some(s) => s,
        None => match file.site_name.take() {
            Some(s) => s,
            None => "Nezha".to_owned(),
        },
    };
    let install_host = if !args.install_host.as_str().is_empty() {
        args.install_host
    } else {
        match file.install_host.take() {
            Some(s) => s,
            None => String::new(),
        }
    };
    let agent_tls = file.tls.unwrap_or(false);
    let debug = args.debug || file.debug.unwrap_or(false);
    let force_auth = args.force_auth || file.force_auth.unwrap_or(false);
    let trust_proxy_headers = args.trust_proxy_headers || file.trust_proxy_headers.unwrap_or(
        false,
    );
    let initial_settings = initial_dashboard_settings(
        file,
        site_name.as_str(),
        install_host.as_str(),
        agent_tls,
    );
    proof {
        assert(initial_settings@ == initial_view(
            given,
            site_name@,
            install_host@,
            agent_tls,
        ));
    }
    ResolvedDashboardConfig {
        client_secret,
        jwt_secret,
        jwt_timeout,
        http_bind,
        site_name,
        debug,
        force_auth,
        agent_tls,
        install_host,
        trust_proxy_headers,
        initial_settings,
    }
}

/// The command line counts before the environment and the environment before the file,
/// in which a blank secret is none; a secret that is given nowhere is made up.
pub proof fn secrets_are_looked_for_in_order(
    arg: String,
    env: Option<String>,
    set: String,
    file: Option<String>,
    written: String,
)
    ensures
        given_secret(Some(arg), env, file) == Some(arg@),
        given_secret(None, Some(set), file) == Some(set@),
        text::trimmed(written@).len() > 0 ==> given_secret(None, None, Some(written)) == Some(
            text::trimmed(written@),
        ),
        text::trimmed(written@).len() == 0 ==> given_secret(None, None, Some(written)) is None,
        given_secret(None, None, None) is None,
        forall|secret: Seq<char>, len: nat|
            secret_is_good(Some(arg@), secret, len) <==> secret == arg@,
        forall|secret: Seq<char>, len: nat|
            #[trigger] secret_is_good(None, secret, len) ==> secret.len() == len,
{
}

/// A token is good for as many hours as the command line says, or else the file, and for
/// one where neither does; never for less than one.
pub proof fn tokens_are_good_for_an_hour_at_least(arg: u64, file: Option<u64>)
    ensures
        arg >= 1 ==> token_hours(Some(arg), file) == arg,
        token_hours(Some(0), file) == 1,
        file matches Some(h) ==> (h >= 1 ==> token_hours(None, file) == h),
        token_hours(None, None) == 1,
{
}

/// The web server is bound to the host and port of the file: by default to all addresses
/// at port 8008. A host with a colon is put into brackets, unless it is in brackets.
pub proof fn hosts_are_bound_with_their_port(host: String, port: u16)
    ensures
        !search::occurs(host@, ":"@) ==> bind_text(Some(host), Some(port)) == host@ + ":"@
            + decimal::decimal(port as nat),
        search::occurs(host@, ":"@) && !"["@.is_prefix_of(host@) ==> bind_text(
            Some(host),
            Some(port),
        ) == "["@ + host@ + "]:"@ + decimal::decimal(port as nat),
        "["@.is_prefix_of(host@) ==> bind_text(Some(host), Some(port)) == host@ + ":"@
            + decimal::decimal(port as nat),
        bind_text(Some(host), None) == bind_text(Some(host), Some(8008)),
        host@ == "0.0.0.0"@ ==> bind_text(None, Some(port)) == bind_text(Some(host), Some(port)),
{
}

/// A new dashboard starts with what the file says, and with what is usual where it says
/// nothing; a cover of 0 counts as 1.
pub proof fn files_say_how_a_dashboard_starts(
    file: DashboardConfigFile,
    site_name: Seq<char>,
    install_host: Seq<char>,
    agent_tls: bool,
)
    ensures
        ({
            let v = initial_view(file, site_name, install_host, agent_tls);
            &&& v.site_name == site_name && v.install_host == install_host && v.tls == agent_tls
            &&& file.language matches Some(s) ==> v.language == s@
            &&& file.language is None ==> v.language == "en_US"@
            &&& file.dns_servers matches Some(s) ==> v.dns_servers == s@
            &&& file.dns_servers is None ==> v.dns_servers.len() == 0
            &&& file.cover matches Some(c) ==> (c != 0 ==> v.cover == c)
            &&& file.cover is None || file.cover == Some(0u8) ==> v.cover == 1
            &&& file.user_template matches Some(s) ==> v.user_template == s@
            &&& file.user_template is None ==> v.user_template == "user-dist"@
            &&& file.admin_template matches Some(s) ==> v.admin_template == s@
            &&& file.admin_template is None ==> v.admin_template == "admin-dist"@
            &&& file.web_real_ip_header matches Some(s) ==> v.web_real_ip_header == s@
            &&& file.agent_real_ip_header matches Some(s) ==> v.agent_real_ip_header == s@
            &&& file.enable_ip_change_notification matches Some(b)
                ==> v.enable_ip_change_notification == b
            &&& file.enable_plain_ip_in_notification matches Some(b)
                ==> v.enable_plain_ip_in_notification == b
            &&& file.ip_change_notification_group_id matches Some(n)
                ==> v.ip_change_notification_group_id == n
            &&& file.custom_code matches Some(s) ==> v.custom_code == s@
            &&& file.custom_code_dashboard matches Some(s) ==> v.custom_code_dashboard == s@
            &&& file.ignored_ip_notification matches Some(s) ==> v.ignored_ip_notification == s@
        }),
{
}

} // verus!
