//! The settings of the dashboard.
use std::collections::HashMap;
use vstd::prelude::*;

use crate::{decimal, frontend, json, search, sorting, text};
use crate::decimal::parse_u64;
use crate::frontend::{FrontendTemplate, has_user_template};
use crate::search::{replace, split};
use crate::sorting::sort_texts;
use crate::text::{same, starts_with, to_ascii_lowercase, trim};

verus! {

/// Where a provider of identities is asked.
#[derive(Debug, Clone)]
pub struct OAuth2Endpoint {
    pub auth_url: String,
    pub token_url: String,
}

/// A provider of identities.
#[derive(Debug, Clone)]
pub struct OAuth2Config {
    pub client_id: String,
    pub client_secret: String,
    pub endpoint: OAuth2Endpoint,
    pub scopes: Vec<String>,
    pub user_info_url: String,
    pub user_id_path: String,
}

/// The settings of the dashboard. No name occurs twice among the providers.
#[derive(Debug, Clone)]
pub struct DashboardSettings {
    pub language: String,
    pub site_name: String,
    pub custom_code: String,
    pub custom_code_dashboard: String,
    pub install_host: String,
    pub tls: bool,
    pub dns_servers: String,
    pub ignored_ip_notification: String,
    pub ip_change_notification_group_id: u64,
    pub cover: u8,
    pub web_real_ip_header: String,
    pub agent_real_ip_header: String,
    pub user_template: String,
    pub admin_template: String,
    pub enable_ip_change_notification: bool,
    pub enable_plain_ip_in_notification: bool,
    pub oauth2: Vec<(String, OAuth2Config)>,
    pub client_secret: String,
    pub jwt_secret: String,
}

/// The settings as texts, numbers and a map of the providers by name.
pub struct SettingsView {
    pub language: Seq<char>,
    pub site_name: Seq<char>,
    pub custom_code: Seq<char>,
    pub custom_code_dashboard: Seq<char>,
    pub install_host: Seq<char>,
    pub tls: bool,
    pub dns_servers: Seq<char>,
    pub ignored_ip_notification: Seq<char>,
    pub ip_change_notification_group_id: u64,
    pub cover: u8,
    pub web_real_ip_header: Seq<char>,
    pub agent_real_ip_header: Seq<char>,
    pub user_template: Seq<char>,
    pub admin_template: Seq<char>,
    pub enable_ip_change_notification: bool,
    pub enable_plain_ip_in_notification: bool,
    pub oauth2: Map<Seq<char>, OAuth2Config>,
    pub client_secret: Seq<char>,
    pub jwt_secret: Seq<char>,
}

/// What the providers are by name; the last of a name counts.
pub open spec fn providers(v: Seq<(String, OAuth2Config)>) -> Map<Seq<char>, OAuth2Config>
    decreases v.len(),
{
    if v.len() == 0 {
        Map::empty()
    } else {
        providers(v.drop_last()).insert(v.last().0@, v.last().1)
    }
}

/// The names of the providers as they stand.
pub open spec fn provider_names(v: Seq<(String, OAuth2Config)>) -> Seq<Seq<char>> {
    v.map_values(|e: (String, OAuth2Config)| e.0@)
}

impl View for DashboardSettings {
    type V = SettingsView;

    open spec fn view(&self) -> SettingsView {
        SettingsView {
            language: self.language@,
            site_name: self.site_name@,
            custom_code: self.custom_code@,
            custom_code_dashboard: self.custom_code_dashboard@,
            install_host: self.install_host@,
            tls: self.tls,
            dns_servers: self.dns_servers@,
            ignored_ip_notification: self.ignored_ip_notification@,
            ip_change_notification_group_id: self.ip_change_notification_group_id,
            cover: self.cover,
            web_real_ip_header: self.web_real_ip_header@,
            agent_real_ip_header: self.agent_real_ip_header@,
            user_template: self.user_template@,
            admin_template: self.admin_template@,
            enable_ip_change_notification: self.enable_ip_change_notification,
            enable_plain_ip_in_notification: self.enable_plain_ip_in_notification,
            oauth2: providers(self.oauth2@),
            client_secret: self.client_secret@,
            jwt_secret: self.jwt_secret@,
        }
    }
}

/// The settings of a new dashboard.
pub open spec fn default_settings() -> SettingsView {
    SettingsView {
        language: "en_US"@,
        site_name: "Nezha"@,
        custom_code: seq![],
        custom_code_dashboard: seq![],
        install_host: seq![],
        tls: false,
        dns_servers: seq![],
        ignored_ip_notification: seq![],
        ip_change_notification_group_id: 0,
        cover: 1,
        web_real_ip_header: seq![],
        agent_real_ip_header: seq![],
        user_template: "user-dist"@,
        admin_template: "admin-dist"@,
        enable_ip_change_notification: false,
        enable_plain_ip_in_notification: false,
        oauth2: Map::empty(),
        client_secret: seq![],
        jwt_secret: seq![],
    }
}

impl DashboardSettings {
    /// Whether no name occurs twice among the providers.
    pub open spec fn wf(self) -> bool {
        provider_names(self.oauth2@).no_duplicates()
    }
}

impl Default for DashboardSettings {
    fn default() -> (r: Self)
        ensures
            r@ == default_settings(),
            r.wf(),
    {
        DashboardSettings {
            language: "en_US".to_owned(),
            site_name: "Nezha".to_owned(),
            custom_code: String::new(),
            custom_code_dashboard: String::new(),
            install_host: String::new(),
            tls: false,
            dns_servers: String::new(),
            ignored_ip_notification: String::new(),
            ip_change_notification_group_id: 0,
            cover: 1,
            web_real_ip_header: String::new(),
            agent_real_ip_header: String::new(),
            user_template: "user-dist".to_owned(),
            admin_template: "admin-dist".to_owned(),
            enable_ip_change_notification: false,
            enable_plain_ip_in_notification: false,
            oauth2: Vec::new(),
            client_secret: String::new(),
            jwt_secret: String::new(),
        }
    }
}

/// The settings of a dashboard that has stored none.
pub fn settings_from_state_defaults(site_name: &str, install_host: &str, agent_tls: bool) -> (r:
    DashboardSettings)
    ensures
        r@ == (SettingsView {
            site_name: site_name@,
            install_host: install_host@,
            tls: agent_tls,
            ..default_settings()
        }),
        r.wf(),
{
    let mut settings = DashboardSettings::default();
    settings.site_name = site_name.to_owned();
    settings.install_host = install_host.to_owned();
    settings.tls = agent_tls;
    settings
}

/// Why settings are refused.
#[derive(Debug, Clone, Copy, PartialEq, Eq, Structural)]
pub enum SettingError {
    Language,
    SiteName,
    UserTemplate,
    ClientId,
    ClientSecret,
    AuthUrl,
    TokenUrl,
    UserInfoUrl,
}

/// What is told of settings that are refused.
pub open spec fn setting_error_text(e: SettingError) -> Seq<char> {
    match e {
        SettingError::Language => "language is invalid"@,
        SettingError::SiteName => "site_name can't be empty"@,
        SettingError::UserTemplate => "invalid user template"@,
        SettingError::ClientId => "oauth2 client_id is required"@,
        SettingError::ClientSecret => "oauth2 client_secret is required"@,
        SettingError::AuthUrl => "oauth2 auth_url is invalid"@,
        SettingError::TokenUrl => "oauth2 token_url is invalid"@,
        SettingError::UserInfoUrl => "oauth2 user_info_url is invalid"@,
    }
}

impl SettingError {
    /// What is told of settings that are refused.
    pub fn message(self) -> (r: &'static str)
        ensures
            r@ == setting_error_text(self),
    {
        match self {
            SettingError::Language => "language is invalid",
            SettingError::SiteName => "site_name can't be empty",
            SettingError::UserTemplate => "invalid user template",
            SettingError::ClientId => "oauth2 client_id is required",
            SettingError::ClientSecret => "oauth2 client_secret is required",
            SettingError::AuthUrl => "oauth2 auth_url is invalid",
            SettingError::TokenUrl => "oauth2 token_url is invalid",
            SettingError::UserInfoUrl => "oauth2 user_info_url is invalid",
        }
    }
}

/// Whether a text is a web address.
pub open spec fn is_web_address(s: Seq<char>) -> bool {
    "http://"@.is_prefix_of(s) || "https://"@.is_prefix_of(s)
}

fn web_address(s: &str) -> (r: bool)
    ensures
        r == is_web_address(s@),
{
    starts_with(s, "http://") || starts_with(s, "https://")
}

/// What is wrong with a provider, if anything.
pub open spec fn oauth2_error(config: OAuth2Config) -> Option<SettingError> {
    if text::trimmed(config.client_id@).len() == 0 {
        Some(SettingError::ClientId)
    } else if text::trimmed(config.client_secret@).len() == 0 {
        Some(SettingError::ClientSecret)
    } else if !is_web_address(config.endpoint.auth_url@) {
        Some(SettingError::AuthUrl)
    } else if !is_web_address(config.endpoint.token_url@) {
        Some(SettingError::TokenUrl)
    } else if !is_web_address(config.user_info_url@) {
        Some(SettingError::UserInfoUrl)
    } else {
        None
    }
}

/// Refuses a provider that cannot be asked.
pub fn validate_oauth2_config(config: &OAuth2Config) -> (r: Result<(), SettingError>)
    ensures
        match r {
            Ok(()) => oauth2_error(*config) is None,
            Err(e) => oauth2_error(*config) == Some(e),
        },
{
    let id = trim(config.client_id.as_str());
    if id.as_str().is_empty() {
        return Err(SettingError::ClientId);
    }
    let secret = trim(config.client_secret.as_str());
    if secret.as_str().is_empty() {
        return Err(SettingError::ClientSecret);
    }
    if !web_address(config.endpoint.auth_url.as_str()) {
        return Err(SettingError::AuthUrl);
    }
    if !web_address(config.endpoint.token_url.as_str()) {
        return Err(SettingError::TokenUrl);
    }
    if !web_address(config.user_info_url.as_str()) {
        return Err(SettingError::UserInfoUrl);
    }
    Ok(())
}

/// How a language is written with an underscore.
pub open spec fn underscored(language: Seq<char>) -> Seq<char> {
    search::replaced(text::trimmed(language), "-"@, "_"@)
}

/// How a language is written with an underscore.
pub fn normalize_language(language: &str) -> (r: String)
    ensures
        r@ == underscored(language@),
{
    proof {
        reveal_strlit("-");
    }
    let t = trim(language);
    replace(t.as_str(), "-", "_")
}

/// How a language is written towards the web pages.
pub fn api_language(language: &str) -> (r: String)
    ensures
        r@ == search::replaced(language@, "_"@, "-"@),
{
    proof {
        reveal_strlit("_");
    }
    replace(language, "_", "-")
}

/// The names of the providers in order.
pub fn oauth2_providers(settings: &DashboardSettings) -> (r: Vec<String>)
    ensures
        search::texts(r@) == sorting::in_order(provider_names(settings.oauth2@)),
{
    let mut names: Vec<String> = Vec::new();
    let mut i: usize = 0;
    while i < settings.oauth2.len()
        invariant
            i <= settings.oauth2@.len(),
            search::texts(names@) == provider_names(settings.oauth2@).take(i as int),
        decreases settings.oauth2@.len() - i,
    {
        let name = settings.oauth2[i].0.as_str().to_owned();
        proof {
            search::lemma_texts_push(names@, name);
            assert(provider_names(settings.oauth2@).take(i + 1) =~= provider_names(
                settings.oauth2@,
            ).take(i as int).push(name@));
        }
        names.push(name);
        i += 1;
    }
    proof {
        assert(provider_names(settings.oauth2@).take(i as int) =~= provider_names(
            settings.oauth2@,
        ));
    }
    sort_texts(&names)
}

/// The servers in a list of numbers whose changes of address are kept quiet.
pub open spec fn ignored_ids(raw: Seq<char>) -> Set<u64> {
    Set::new(
        |id: u64|
            exists|i: int|
                0 <= i < search::split_on(raw, ',').len() && decimal::parsed_u64(
                    text::trimmed(#[trigger] search::split_on(raw, ',')[i]),
                ) == Some(id),
    )
}

/// The servers in a list of numbers whose changes of address are kept quiet.
pub fn ignored_ip_notification_server_ids(raw: &str) -> (r: HashMap<u64, bool>)
    ensures
        r@ == Map::new(|id: u64| ignored_ids(raw@).contains(id), |id: u64| true),
{
    let pieces = split(raw, ',');
    let ghost parts = search::split_on(raw@, ',');
    let mut out: HashMap<u64, bool> = HashMap::new();
    let mut i: usize = 0;
    while i < pieces.len()
        invariant
            i <= pieces@.len(),
            parts == search::split_on(raw@, ','),
            search::texts(pieces@) == parts,
            forall|id: u64| #[trigger]
                out@.contains_key(id) <==> exists|k: int|
                    0 <= k < i && decimal::parsed_u64(text::trimmed(#[trigger] parts[k]))
                        == Some(id),
            forall|id: u64| #[trigger] out@.contains_key(id) ==> out@[id],
        decreases pieces@.len() - i,
    {
        let ghost before = out@;
        let item = trim(pieces[i].as_str());
        proof {
            assert(parts[i as int] == pieces@[i as int]@);
        }
        if let Some(id) = parse_u64(item.as_str()) {
            out.insert(id, true);
        }
        proof {
            assert forall|id: u64| #[trigger] out@.contains_key(id) implies exists|k: int|
                0 <= k < i + 1 && decimal::parsed_u64(text::trimmed(#[trigger] parts[k]))
                    == Some(id) by {
                if before.contains_key(id) {
                    let k = choose|k: int|
                        0 <= k < i && decimal::parsed_u64(text::trimmed(#[trigger] parts[k]))
                            == Some(id);
                    assert(decimal::parsed_u64(text::trimmed(parts[k])) == Some(id));
                } else {
                    assert(decimal::parsed_u64(text::trimmed(parts[i as int])) == Some(id));
                }
            }
        }
        i += 1;
    }
    proof {
        assert(out@ =~= Map::new(|id: u64| ignored_ids(raw@).contains(id), |id: u64| true));
    }
    out
}

/// A change of settings: what is absent stays.
#[derive(Debug)]
pub struct SettingPatch {
    pub language: Option<String>,
    pub site_name: Option<String>,
    pub custom_code: Option<String>,
    pub custom_code_dashboard: Option<String>,
    pub install_host: Option<String>,
    pub tls: Option<bool>,
    pub dns_servers: Option<String>,
    pub ignored_ip_notification: Option<String>,
    pub ip_change_notification_group_id: Option<u64>,
    pub cover: Option<u8>,
    pub web_real_ip_header: Option<String>,
    pub agent_real_ip_header: Option<String>,
    pub user_template: Option<String>,
    pub enable_ip_change_notification: Option<bool>,
    pub enable_plain_ip_in_notification: Option<bool>,
    pub oauth2: Option<Vec<(String, OAuth2Config)>>,
}

/// What is set, or else what was there.
pub open spec fn text_or(set: Option<String>, before: Seq<char>) -> Seq<char> {
    match set {
        Some(s) => s@,
        None => before,
    }
}

/// What is set, without white space around it, or else what was there.
pub open spec fn trimmed_or(set: Option<String>, before: Seq<char>) -> Seq<char> {
    match set {
        Some(s) => text::trimmed(s@),
        None => before,
    }
}

/// The providers by the small letters of their names; the last of a name
/// counts.
pub open spec fn lowered_providers(v: Seq<(String, OAuth2Config)>) -> Map<
    Seq<char>,
    OAuth2Config,
>
    decreases v.len(),
{
    if v.len() == 0 {
        Map::empty()
    } else {
        lowered_providers(v.drop_last()).insert(text::lowered(v.last().0@), v.last().1)
    }
}

/// The first thing that is wrong with providers from the one at `i` on.
pub open spec fn first_oauth2_error(v: Seq<(String, OAuth2Config)>, i: int) -> Option<SettingError>
    decreases v.len() - i,
{
    if i >= v.len() {
        None
    } else if oauth2_error(v[i].1) is Some {
        oauth2_error(v[i].1)
    } else {
        first_oauth2_error(v, i + 1)
    }
}

/// A change is made in four steps, and what is wrong stops it before the step
/// it is in. These are the settings after the first `steps` of them.
pub open spec fn patched(v: SettingsView, p: SettingPatch, steps: int) -> SettingsView {
    let one = if steps < 1 {
        v
    } else {
        SettingsView {
            language: if p.language is Some {
                underscored(p.language->0@)
            } else {
                v.language
            },
            ..v
        }
    };
    let two = if steps < 2 {
        one
    } else {
        SettingsView {
            site_name: trimmed_or(p.site_name, v.site_name),
            custom_code: text_or(p.custom_code, v.custom_code),
            custom_code_dashboard: text_or(p.custom_code_dashboard, v.custom_code_dashboard),
            install_host: trimmed_or(p.install_host, v.install_host),
            tls: json::or_else(p.tls, v.tls),
            dns_servers: text_or(p.dns_servers, v.dns_servers),
            ignored_ip_notification: text_or(
                p.ignored_ip_notification,
                v.ignored_ip_notification,
            ),
            ip_change_notification_group_id: json::or_else(
                p.ip_change_notification_group_id,
                v.ip_change_notification_group_id,
            ),
            cover: json::or_else(p.cover, v.cover),
            web_real_ip_header: trimmed_or(p.web_real_ip_header, v.web_real_ip_header),
            agent_real_ip_header: trimmed_or(p.agent_real_ip_header, v.agent_real_ip_header),
            ..one
        }
    };
    let three = if steps < 3 {
        two
    } else {
        SettingsView {
            user_template: text_or(p.user_template, v.user_template),
            enable_ip_change_notification: json::or_else(
                p.enable_ip_change_notification,
                v.enable_ip_change_notification,
            ),
            enable_plain_ip_in_notification: json::or_else(
                p.enable_plain_ip_in_notification,
                v.enable_plain_ip_in_notification,
            ),
            ..two
        }
    };
    if steps < 4 {
        three
    } else {
        SettingsView {
            oauth2: if p.oauth2 is Some {
                lowered_providers(p.oauth2->0@)
            } else {
                v.oauth2
            },
            ..three
        }
    }
}

/// How many of the steps of a change can be made, and what stops it there.
pub open spec fn patch_outcome(p: SettingPatch, templates: Seq<FrontendTemplate>) -> (
    int,
    Option<SettingError>,
) {
    if p.language is Some && vstd::utf8::encode_utf8(underscored(p.language->0@)).len() < 2 {
        (0, Some(SettingError::Language))
    } else if p.site_name is Some && text::trimmed(p.site_name->0@).len() == 0 {
        (1, Some(SettingError::SiteName))
    } else if p.user_template is Some
        && !frontend::in_catalog(templates, p.user_template->0@, false) {
        (2, Some(SettingError::UserTemplate))
    } else if p.oauth2 is Some && first_oauth2_error(p.oauth2->0@, 0) is Some {
        (3, first_oauth2_error(p.oauth2->0@, 0))
    } else {
        (4, None)
    }
}

fn validate_all(v: &Vec<(String, OAuth2Config)>) -> (r: Result<(), SettingError>)
    ensures
        match r {
            Ok(()) => first_oauth2_error(v@, 0) is None,
            Err(e) => first_oauth2_error(v@, 0) == Some(e),
        },
{
    let mut i: usize = 0;
    while i < v.len()
        invariant
            i <= v@.len(),
            first_oauth2_error(v@, i as int) == first_oauth2_error(v@, 0),
        decreases v@.len() - i,
    {
        match validate_oauth2_config(&v[i].1) {
            Ok(()) => {},
            Err(e) => {
                return Err(e);
            },
        }
        i += 1;
    }
    Ok(())
}

proof fn lemma_providers_update(
    v: Seq<(String, OAuth2Config)>,
    i: int,
    config: OAuth2Config,
)
    requires
        0 <= i < v.len(),
        provider_names(v).no_duplicates(),
    ensures
        providers(v.update(i, (v[i].0, config))) == providers(v).insert(v[i].0@, config),
    decreases v.len(),
{
    let w = v.update(i, (v[i].0, config));
    if i == v.len() - 1 {
        assert(w.drop_last() =~= v.drop_last());
        assert(providers(w) =~= providers(v).insert(v[i].0@, config));
    } else {
        assert(w.drop_last() =~= v.drop_last().update(i, (v[i].0, config)));
        lemma_names_drop_last(v);
        lemma_providers_update(v.drop_last(), i, config);
        assert(provider_names(v)[i] != provider_names(v)[v.len() - 1]);
        assert(providers(w) =~= providers(v).insert(v[i].0@, config));
    }
}

proof fn lemma_names_drop_last(v: Seq<(String, OAuth2Config)>)
    requires
        v.len() > 0,
        provider_names(v).no_duplicates(),
    ensures
        provider_names(v.drop_last()).no_duplicates(),
{
    assert(provider_names(v.drop_last()) =~= provider_names(v).drop_last());
}

/// Sets what a provider of that name is.
fn put_provider(out: &mut Vec<(String, OAuth2Config)>, name: String, config: OAuth2Config)
    requires
        provider_names(old(out)@).no_duplicates(),
    ensures
        provider_names(final(out)@).no_duplicates(),
        providers(final(out)@) == providers(old(out)@).insert(name@, config),
{
    let ghost before = out@;
    let mut i: usize = 0;
    while i < out.len()
        invariant
            out@ == before,
            i <= before.len(),
            before == old(out)@,
            provider_names(before).no_duplicates(),
            forall|k: int| 0 <= k < i ==> (#[trigger] before[k]).0@ != name@,
        decreases before.len() - i,
    {
        if same(out[i].0.as_str(), name.as_str()) {
            let key = out[i].0.as_str().to_owned();
            proof {
                let entry = (key, config);
                let w = before.update(i as int, entry);
                let u = before.update(i as int, (before[i as int].0, config));
                lemma_providers_update(before, i as int, config);
                lemma_providers_names(w, u);
                assert(provider_names(w) =~= provider_names(before));
            }
            out.set(i, (key, config));
            return;
        }
        i += 1;
    }
    out.push((name, config));
    proof {
        assert(out@.drop_last() =~= before);
        let names = provider_names(before);
        assert(provider_names(out@) =~= names.push(name@));
        assert forall|a: int, b: int|
            0 <= a < b < names.push(name@).len() implies names.push(name@)[a] != names.push(
            name@,
        )[b] by {
            if b == names.len() {
                assert(before[a].0@ != name@);
            }
        }
    }
}

/// Providers whose names read the same and that are the same are the same by
/// name.
proof fn lemma_providers_names(
    v: Seq<(String, OAuth2Config)>,
    w: Seq<(String, OAuth2Config)>,
)
    requires
        v.len() == w.len(),
        forall|i: int| 0 <= i < v.len() ==> (#[trigger] v[i]).0@ == w[i].0@ && v[i].1 == w[i].1,
    ensures
        providers(v) == providers(w),
    decreases v.len(),
{
    if v.len() > 0 {
        assert(v.last() == v[v.len() - 1]);
        lemma_providers_names(v.drop_last(), w.drop_last());
    }
}

fn lower_providers(v: Vec<(String, OAuth2Config)>) -> (r: Vec<(String, OAuth2Config)>)
    ensures
        provider_names(r@).no_duplicates(),
        providers(r@) == lowered_providers(v@),
{
    let mut out: Vec<(String, OAuth2Config)> = Vec::new();
    let ghost all = v@;
    let mut v = v;
    let mut rest: Vec<(String, OAuth2Config)> = Vec::new();
    while v.len() > 0
        invariant
            v@.len() + rest@.len() == all.len(),
            v@ == all.take(v@.len() as int),
            rest@ == all.skip(v@.len() as int).reverse(),
        decreases v@.len(),
    {
        let ghost n = v@.len() - 1;
        if let Some(entry) = v.pop() {
            proof {
                assert(all.skip(n).reverse() =~= all.skip(n + 1).reverse().push(all[n]));
                assert(v@ =~= all.take(n));
            }
            rest.push(entry);
        }
    }
    let ghost mut done: int = 0;
    proof {
        assert(all.skip(0) =~= all);
        assert(all.take(0) =~= seq![]);
        assert(rest@ =~= all.skip(0).reverse());
    }
    while rest.len() > 0
        invariant
            0 <= done,
            done + rest@.len() == all.len(),
            rest@ == all.skip(done).reverse(),
            provider_names(out@).no_duplicates(),
            providers(out@) == lowered_providers(all.take(done)),
        decreases rest@.len(),
    {
        if let Some((name, config)) = rest.pop() {
            proof {
                assert(all.skip(done + 1).reverse() =~= all.skip(done).reverse().drop_last());
                assert(all.take(done + 1).drop_last() =~= all.take(done));
                assert(all.take(done + 1).last() == all[done]);
            }
            let key = to_ascii_lowercase(name.as_str());
            put_provider(&mut out, key, config);
            proof {
                done = done + 1;
            }
        }
    }
    proof {
        assert(all.take(done) =~= all);
    }
    out
}

pub(crate) fn set_text(slot: &mut String, value: Option<String>)
    ensures
        final(slot)@ == text_or(value, old(slot)@),
{
    if let Some(text) = value {
        *slot = text;
    }
}

fn set_trimmed(slot: &mut String, value: Option<String>)
    ensures
        final(slot)@ == trimmed_or(value, old(slot)@),
{
    if let Some(text) = value {
        *slot = trim(text.as_str());
    }
}

/// Changes the settings; `templates` is the catalog of templates.
pub fn apply_setting_patch(
    settings: &mut DashboardSettings,
    patch: SettingPatch,
    templates: &Vec<FrontendTemplate>,
) -> (r: Result<(), SettingError>)
    requires
        old(settings).wf(),
    ensures
        final(settings).wf(),
        final(settings)@ == patched(old(settings)@, patch, patch_outcome(patch, templates@).0),
        match r {
            Ok(()) => patch_outcome(patch, templates@).1 is None,
            Err(e) => patch_outcome(patch, templates@).1 == Some(e),
        },
{
    if let Some(language) = patch.language {
        let l = normalize_language(language.as_str());
        if l.as_str().as_bytes().len() < 2 {
            return Err(SettingError::Language);
        }
        settings.language = l;
    }
    if let Some(site_name) = patch.site_name {
        let name = trim(site_name.as_str());
        if name.as_str().is_empty() {
            return Err(SettingError::SiteName);
        }
        settings.site_name = name;
    }
    set_text(&mut settings.custom_code, patch.custom_code);
    set_text(&mut settings.custom_code_dashboard, patch.custom_code_dashboard);
    set_trimmed(&mut settings.install_host, patch.install_host);
    settings.tls = patch.tls.unwrap_or(settings.tls);
    set_text(&mut settings.dns_servers, patch.dns_servers);
    set_text(&mut settings.ignored_ip_notification, patch.ignored_ip_notification);
    settings.ip_change_notification_group_id =
    patch.ip_change_notification_group_id.unwrap_or(settings.ip_change_notification_group_id);
    settings.cover = patch.cover.unwrap_or(settings.cover);
    set_trimmed(&mut settings.web_real_ip_header, patch.web_real_ip_header);
    set_trimmed(&mut settings.agent_real_ip_header, patch.agent_real_ip_header);
    if let Some(user_template) = patch.user_template {
        if !has_user_template(templates, user_template.as_str()) {
            return Err(SettingError::UserTemplate);
        }
        settings.user_template = user_template;
    }
    settings.enable_ip_change_notification =
    patch.enable_ip_change_notification.unwrap_or(settings.enable_ip_change_notification);
    settings.enable_plain_ip_in_notification =
    patch.enable_plain_ip_in_notification.unwrap_or(settings.enable_plain_ip_in_notification);
    if let Some(oauth2) = patch.oauth2 {
        match validate_all(&oauth2) {
            Ok(()) => {},
            Err(e) => {
                return Err(e);
            },
        }
        settings.oauth2 = lower_providers(oauth2);
    }
    Ok(())
}

/// One setting as it is shown.
#[derive(Debug)]
pub enum Shown {
    Text(String),
    Flag(bool),
    Number(u64),
    Names(Vec<String>),
    Ids(HashMap<u64, bool>),
}

pub enum ShownView {
    Text(Seq<char>),
    Flag(bool),
    Number(u64),
    Names(Seq<Seq<char>>),
    Ids(Map<u64, bool>),
}

impl View for Shown {
    type V = ShownView;

    open spec fn view(&self) -> ShownView {
        match *self {
            Shown::Text(s) => ShownView::Text(s@),
            Shown::Flag(b) => ShownView::Flag(b),
            Shown::Number(n) => ShownView::Number(n),
            Shown::Names(v) => ShownView::Names(search::texts(v@)),
            Shown::Ids(m) => ShownView::Ids(m@),
        }
    }
}

pub open spec fn shown_views(v: Seq<(String, Shown)>) -> Seq<(Seq<char>, ShownView)> {
    v.map_values(|e: (String, Shown)| (e.0@, e.1@))
}

/// A text is shown where it is not empty.
pub open spec fn text_shown(key: Seq<char>, value: Seq<char>) -> Seq<(Seq<char>, ShownView)> {
    if value.len() == 0 {
        seq![]
    } else {
        seq![(key, ShownView::Text(value))]
    }
}

/// A flag is shown where it is set.
pub open spec fn flag_shown(key: Seq<char>, value: bool) -> Seq<(Seq<char>, ShownView)> {
    if value {
        seq![(key, ShownView::Flag(true))]
    } else {
        seq![]
    }
}

/// What everybody is shown of the settings.
pub open spec fn shown_to_all(settings: DashboardSettings) -> Seq<(Seq<char>, ShownView)> {
    let names = sorting::in_order(provider_names(settings.oauth2@));
    seq![
        ("language"@, ShownView::Text(search::replaced(settings.language@, "_"@, "-"@))),
        ("site_name"@, ShownView::Text(settings.site_name@)),
    ] + text_shown("custom_code"@, settings.custom_code@) + text_shown(
        "custom_code_dashboard"@,
        settings.custom_code_dashboard@,
    ) + if names.len() == 0 {
        seq![]
    } else {
        seq![("oauth2_providers"@, ShownView::Names(names))]
    }
}

/// What users are shown besides.
pub open spec fn shown_to_users(settings: DashboardSettings) -> Seq<(Seq<char>, ShownView)> {
    text_shown("install_host"@, settings.install_host@) + flag_shown("tls"@, settings.tls)
}

/// What administrators are shown behind all that users are shown.
pub open spec fn shown_to_admins(
    settings: DashboardSettings,
    before: Seq<(Seq<char>, ShownView)>,
) -> Seq<(Seq<char>, ShownView)> {
    let ignored = Map::new(
        |id: u64| ignored_ids(settings.ignored_ip_notification@).contains(id),
        |id: u64| true,
    );
    before + text_shown("dns_servers"@, settings.dns_servers@) + text_shown(
        "ignored_ip_notification"@,
        settings.ignored_ip_notification@,
    ) + if ignored.dom().is_empty() {
        seq![]
    } else {
        seq![("ignored_ip_notification_server_ids"@, ShownView::Ids(ignored))]
    } + seq![
        (
            "ip_change_notification_group_id"@,
            ShownView::Number(settings.ip_change_notification_group_id),
        ),
        ("cover"@, ShownView::Number(settings.cover as u64)),
    ] + text_shown("web_real_ip_header"@, settings.web_real_ip_header@) + text_shown(
        "agent_real_ip_header"@,
        settings.agent_real_ip_header@,
    ) + text_shown("user_template"@, settings.user_template@) + text_shown(
        "admin_template"@,
        settings.admin_template@,
    ) + flag_shown(
        "enable_ip_change_notification"@,
        settings.enable_ip_change_notification,
    ) + flag_shown("enable_plain_ip_in_notification"@, settings.enable_plain_ip_in_notification)
}

/// What is shown of the settings.
pub open spec fn shown_settings(
    settings: DashboardSettings,
    is_authorized: bool,
    is_admin: bool,
) -> Seq<(Seq<char>, ShownView)> {
    let shown = shown_to_all(settings) + if is_authorized {
        shown_to_users(settings)
    } else {
        seq![]
    };
    if is_admin {
        shown_to_admins(settings, shown)
    } else {
        shown
    }
}

fn show(config: &mut Vec<(String, Shown)>, key: &str, value: Shown)
    ensures
        shown_views(final(config)@) == shown_views(old(config)@) + seq![(key@, value@)],
{
    let ghost before = config@;
    config.push((key.to_owned(), value));
    proof {
        assert(shown_views(config@) =~= shown_views(before) + seq![(key@, value@)]);
    }
}

fn insert_non_empty(config: &mut Vec<(String, Shown)>, key: &str, value: &str)
    ensures
        shown_views(final(config)@) == shown_views(old(config)@) + text_shown(key@, value@),
{
    if !value.is_empty() {
        show(config, key, Shown::Text(value.to_owned()));
    }
    proof {
        assert(value@.len() == 0 ==> shown_views(config@) =~= shown_views(old(config)@)
            + text_shown(key@, value@));
    }
}

fn insert_true(config: &mut Vec<(String, Shown)>, key: &str, value: bool)
    ensures
        shown_views(final(config)@) == shown_views(old(config)@) + flag_shown(key@, value),
{
    if value {
        show(config, key, Shown::Flag(value));
    }
    proof {
        assert(!value ==> shown_views(config@) =~= shown_views(old(config)@) + flag_shown(
            key@,
            value,
        ));
    }
}

fn show_to_all(settings: &DashboardSettings) -> (r: Vec<(String, Shown)>)
    ensures
        shown_views(r@) == shown_to_all(*settings),
{
    let mut config: Vec<(String, Shown)> = Vec::new();
    show(&mut config, "language", Shown::Text(api_language(settings.language.as_str())));
    show(&mut config, "site_name", Shown::Text(settings.site_name.as_str().to_owned()));
    proof {
        assert(shown_views(config@) =~= seq![
            ("language"@, ShownView::Text(search::replaced(settings.language@, "_"@, "-"@))),
            ("site_name"@, ShownView::Text(settings.site_name@)),
        ]);
    }
    insert_non_empty(&mut config, "custom_code", settings.custom_code.as_str());
    insert_non_empty(
        &mut config,
        "custom_code_dashboard",
        settings.custom_code_dashboard.as_str(),
    );
    let names = oauth2_providers(settings);
    proof {
        assert(search::texts(names@).len() == names@.len());
    }
    if names.len() > 0 {
        show(&mut config, "oauth2_providers", Shown::Names(names));
    }
    proof {
        assert(shown_views(config@) =~= shown_to_all(*settings));
    }
    config
}

fn show_to_admins(config: &mut Vec<(String, Shown)>, settings: &DashboardSettings)
    ensures
        shown_views(final(config)@) == shown_to_admins(*settings, shown_views(old(config)@)),
{
    insert_non_empty(config, "dns_servers", settings.dns_servers.as_str());
    insert_non_empty(
        config,
        "ignored_ip_notification",
        settings.ignored_ip_notification.as_str(),
    );
    let ignored = ignored_ip_notification_server_ids(settings.ignored_ip_notification.as_str());
    proof {
        assert(ignored@.dom().finite());
        assert(ignored@.dom().len() == 0 <==> ignored@.dom().is_empty()) by {
            if ignored@.dom().len() == 0 {
                vstd::set_lib::lemma_set_empty_equivalency_len(ignored@.dom());
            }
        }
    }
    let ghost so_far = shown_views(config@);
    if ignored.len() > 0 {
        show(config, "ignored_ip_notification_server_ids", Shown::Ids(ignored));
    }
    proof {
        assert(so_far + seq![] =~= so_far);
    }
    show(
        config,
        "ip_change_notification_group_id",
        Shown::Number(settings.ip_change_notification_group_id),
    );
    show(config, "cover", Shown::Number(settings.cover as u64));
    insert_non_empty(config, "web_real_ip_header", settings.web_real_ip_header.as_str());
    insert_non_empty(config, "agent_real_ip_header", settings.agent_real_ip_header.as_str());
    insert_non_empty(config, "user_template", settings.user_template.as_str());
    insert_non_empty(config, "admin_template", settings.admin_template.as_str());
    insert_true(
        config,
        "enable_ip_change_notification",
        settings.enable_ip_change_notification,
    );
    insert_true(
        config,
        "enable_plain_ip_in_notification",
        settings.enable_plain_ip_in_notification,
    );
}

/// What is shown of the settings: some of them to everybody, the ones that an
/// agent is set up by to users, the rest to administrators.
pub fn setting_config(settings: &DashboardSettings, is_authorized: bool, is_admin: bool) -> (r: Vec<
    (String, Shown),
>)
    ensures
        shown_views(r@) == shown_settings(*settings, is_authorized, is_admin),
{
    let mut config = show_to_all(settings);
    if is_authorized {
        insert_non_empty(&mut config, "install_host", settings.install_host.as_str());
        insert_true(&mut config, "tls", settings.tls);
    }
    proof {
        assert(shown_views(config@) =~= shown_to_all(*settings) + if is_authorized {
            shown_to_users(*settings)
        } else {
            seq![]
        });
    }
    if is_admin {
        show_to_admins(&mut config, settings);
    }
    proof {
        assert(shown_views(config@) =~= shown_settings(*settings, is_authorized, is_admin));
    }
    config
}

/// Users are shown all that visitors are shown, and administrators all that
/// users are shown.
pub proof fn more_is_shown_to_the_trusted(settings: DashboardSettings)
    ensures
        shown_settings(settings, false, false).is_prefix_of(shown_settings(settings, true, false)),
        shown_settings(settings, true, false).is_prefix_of(shown_settings(settings, true, true)),
{
    assert(shown_settings(settings, false, false) =~= shown_to_all(settings));
    assert(shown_settings(settings, true, false) =~= shown_to_all(settings) + shown_to_users(
        settings,
    ));
}

/// A visitor is shown nothing but the language, the name, the code of the pages
/// and the names of the providers.
pub proof fn visitors_are_shown_the_pages(settings: DashboardSettings, i: int)
    requires
        0 <= i < shown_settings(settings, false, false).len(),
    ensures
        ({
            let key = shown_settings(settings, false, false)[i].0;
            key == "language"@ || key == "site_name"@ || key == "custom_code"@ || key
                == "custom_code_dashboard"@ || key == "oauth2_providers"@
        }),
{
    assert(shown_settings(settings, false, false) =~= shown_to_all(settings));
}

/// A change that sets nothing is always made, and leaves the settings as they
/// are.
pub proof fn empty_change_changes_nothing(
    v: SettingsView,
    p: SettingPatch,
    templates: Seq<FrontendTemplate>,
)
    requires
        p.language is None,
        p.site_name is None,
        p.custom_code is None,
        p.custom_code_dashboard is None,
        p.install_host is None,
        p.tls is None,
        p.dns_servers is None,
        p.ignored_ip_notification is None,
        p.ip_change_notification_group_id is None,
        p.cover is None,
        p.web_real_ip_header is None,
        p.agent_real_ip_header is None,
        p.user_template is None,
        p.enable_ip_change_notification is None,
        p.enable_plain_ip_in_notification is None,
        p.oauth2 is None,
    ensures
        patch_outcome(p, templates) == (4int, None::<SettingError>),
        patched(v, p, 4) == v,
{
}

/// Making a change again changes nothing.
pub proof fn change_can_be_made_again(v: SettingsView, p: SettingPatch)
    ensures
        patched(patched(v, p, 4), p, 4) == patched(v, p, 4),
{
}

/// No change touches the administrators' template or the secrets.
pub proof fn changes_keep_the_secrets(v: SettingsView, p: SettingPatch, steps: int)
    ensures
        patched(v, p, steps).admin_template == v.admin_template,
        patched(v, p, steps).client_secret == v.client_secret,
        patched(v, p, steps).jwt_secret == v.jwt_secret,
{
}

/// A change that is made sets what it names and leaves the rest: texts as they are
/// given, and the site's name, the host and the headers without white space around
/// them.
pub proof fn changes_set_what_they_name(v: SettingsView, p: SettingPatch)
    ensures
        ({
            let after = patched(v, p, 4);
            &&& p.site_name is None ==> after.site_name == v.site_name
            &&& p.site_name matches Some(s) ==> after.site_name == text::trimmed(s@)
            &&& p.custom_code is None ==> after.custom_code == v.custom_code
            &&& p.custom_code matches Some(s) ==> after.custom_code == s@
            &&& p.custom_code_dashboard is None ==> after.custom_code_dashboard
                == v.custom_code_dashboard
            &&& p.custom_code_dashboard matches Some(s) ==> after.custom_code_dashboard == s@
            &&& p.install_host is None ==> after.install_host == v.install_host
            &&& p.install_host matches Some(s) ==> after.install_host == text::trimmed(s@)
            &&& p.tls is None ==> after.tls == v.tls
            &&& p.tls matches Some(b) ==> after.tls == b
            &&& p.dns_servers is None ==> after.dns_servers == v.dns_servers
            &&& p.dns_servers matches Some(s) ==> after.dns_servers == s@
            &&& p.ignored_ip_notification is None ==> after.ignored_ip_notification
                == v.ignored_ip_notification
            &&& p.ignored_ip_notification matches Some(s) ==> after.ignored_ip_notification == s@
            &&& p.ip_change_notification_group_id is None ==> after.ip_change_notification_group_id
                == v.ip_change_notification_group_id
            &&& p.ip_change_notification_group_id matches Some(n)
                ==> after.ip_change_notification_group_id == n
            &&& p.cover is None ==> after.cover == v.cover
            &&& p.cover matches Some(n) ==> after.cover == n
            &&& p.web_real_ip_header is None ==> after.web_real_ip_header == v.web_real_ip_header
            &&& p.web_real_ip_header matches Some(s) ==> after.web_real_ip_header == text::trimmed(
                s@,
            )
            &&& p.agent_real_ip_header is None ==> after.agent_real_ip_header
                == v.agent_real_ip_header
            &&& p.agent_real_ip_header matches Some(s) ==> after.agent_real_ip_header
                == text::trimmed(s@)
            &&& p.user_template is None ==> after.user_template == v.user_template
            &&& p.user_template matches Some(s) ==> after.user_template == s@
            &&& p.enable_ip_change_notification is None ==> after.enable_ip_change_notification
                == v.enable_ip_change_notification
            &&& p.enable_ip_change_notification matches Some(b)
                ==> after.enable_ip_change_notification == b
            &&& p.enable_plain_ip_in_notification is None ==> after.enable_plain_ip_in_notification
                == v.enable_plain_ip_in_notification
            &&& p.enable_plain_ip_in_notification matches Some(b)
                ==> after.enable_plain_ip_in_notification == b
            &&& p.language is None ==> after.language == v.language
            &&& p.oauth2 is None ==> after.oauth2 == v.oauth2
        }),
{
}

/// A change is refused exactly for a language of fewer than two bytes, a blank site
/// name, a template that the catalog does not have for users, or a provider with
/// something wrong; and the template and the providers stay as they were where it is.
pub proof fn changes_are_refused_for_what_is_wrong(
    v: SettingsView,
    p: SettingPatch,
    templates: Seq<FrontendTemplate>,
)
    ensures
        ({
            let outcome = patch_outcome(p, templates);
            let bad_language = p.language is Some && vstd::utf8::encode_utf8(
                underscored(p.language->0@),
            ).len() <= 1;
            let bad_name = p.site_name is Some && text::trimmed(p.site_name->0@).len() == 0;
            let bad_template = p.user_template is Some && !exists|i: int|
                0 <= i < templates.len() && !(#[trigger] templates[i]).is_admin && templates[i].path@
                    == p.user_template->0@;
            let bad_provider = p.oauth2 is Some && exists|i: int|
                0 <= i < p.oauth2->0@.len() && oauth2_error((#[trigger] p.oauth2->0@[i]).1) is Some;
            &&& outcome.1 is Some <==> bad_language || bad_name || bad_template || bad_provider
            &&& outcome.1 == Some(SettingError::Language) <==> bad_language
            &&& outcome.1 == Some(SettingError::SiteName) <==> bad_name && !bad_language
            &&& outcome.1 == Some(SettingError::UserTemplate) <==> bad_template && !bad_language
                && !bad_name
            &&& outcome.1 is Some ==> patched(v, p, outcome.0).oauth2 == v.oauth2
            &&& bad_language ==> patched(v, p, outcome.0) == v
            &&& bad_name ==> patched(v, p, outcome.0).site_name == v.site_name
            &&& bad_template ==> patched(v, p, outcome.0).user_template == v.user_template
            &&& outcome.1 is None ==> patched(v, p, outcome.0) == patched(v, p, 4)
        }),
{
    if p.oauth2 is Some {
        lemma_first_oauth2_error(p.oauth2->0@, 0);
    }
    if p.user_template is Some {
        let path = p.user_template->0@;
        if frontend::in_catalog(templates, path, false) {
            let i = choose|i: int|
                0 <= i < templates.len() && (#[trigger] templates[i]).is_admin == false
                    && templates[i].path@ == path;
            assert(!templates[i].is_admin);
        }
    }
}

proof fn lemma_first_oauth2_error(v: Seq<(String, OAuth2Config)>, from: int)
    requires
        0 <= from <= v.len(),
    ensures
        first_oauth2_error(v, from) is Some <==> exists|i: int|
            from <= i < v.len() && oauth2_error((#[trigger] v[i]).1) is Some,
        first_oauth2_error(v, from) matches Some(e) ==> e != SettingError::Language && e
            != SettingError::SiteName && e != SettingError::UserTemplate,
    decreases v.len() - from,
{
    if from < v.len() {
        lemma_first_oauth2_error(v, from + 1);
        if oauth2_error(v[from].1) is None && first_oauth2_error(v, from + 1) is Some {
            let i = choose|i: int|
                from + 1 <= i < v.len() && oauth2_error((#[trigger] v[i]).1) is Some;
            assert(from <= i < v.len() && oauth2_error(v[i].1) is Some);
        }
    }
}

/// A provider needs a number and a secret that are not blank and three web addresses;
/// the first that is missing is told.
pub proof fn providers_need_an_access_and_addresses(config: OAuth2Config)
    ensures
        ({
            let id = text::trimmed(config.client_id@).len() > 0;
            let secret = text::trimmed(config.client_secret@).len() > 0;
            let web = |s: Seq<char>| "http://"@.is_prefix_of(s) || "https://"@.is_prefix_of(s);
            let auth = web(config.endpoint.auth_url@);
            let token = web(config.endpoint.token_url@);
            let user = web(config.user_info_url@);
            &&& oauth2_error(config) is None <==> id && secret && auth && token && user
            &&& oauth2_error(config) == Some(SettingError::ClientId) <==> !id
            &&& oauth2_error(config) == Some(SettingError::ClientSecret) <==> id && !secret
            &&& oauth2_error(config) == Some(SettingError::AuthUrl) <==> id && secret && !auth
            &&& oauth2_error(config) == Some(SettingError::TokenUrl) <==> id && secret && auth
                && !token
            &&& oauth2_error(config) == Some(SettingError::UserInfoUrl) <==> id && secret && auth
                && token && !user
        }),
{
}

/// Providers are known by the small letters of their names, and of several with one
/// name the last counts.
pub proof fn last_provider_of_a_name_counts(
    v: Seq<(String, OAuth2Config)>,
    name: Seq<char>,
    at: int,
)
    requires
        0 <= at < v.len(),
        text::lowered(v[at].0@) == name,
        forall|i: int| at < i < v.len() ==> text::lowered((#[trigger] v[i]).0@) != name,
    ensures
        lowered_providers(v).contains_key(name),
        lowered_providers(v)[name] == v[at].1,
    decreases v.len(),
{
    let front = v.drop_last();
    if at < front.len() {
        assert forall|i: int| at < i < front.len() implies text::lowered((#[trigger] front[i]).0@)
            != name by {
            assert(front[i] == v[i]);
        }
        last_provider_of_a_name_counts(front, name, at);
        assert(text::lowered(v[v.len() - 1].0@) != name);
    }
}

/// Languages are stored with an underscore and told with a hyphen: one that is set is
/// told as it was given.
pub proof fn languages_are_told_as_they_were_given(language: Seq<char>)
    requires
        text::trimmed(language) == language,
        forall|i: int| 0 <= i < language.len() ==> #[trigger] language[i] != '_',
    ensures
        search::replaced(underscored(language), "_"@, "-"@) == language,
        forall|i: int|
            0 <= i < underscored(language).len() ==> #[trigger] underscored(language)[i] != '-',
        underscored(language).len() == language.len(),
{
    reveal_strlit("_");
    reveal_strlit("-");
    assert("_"@ =~= seq!['_']);
    assert("-"@ =~= seq!['-']);
    search::characters_are_replaced_one_by_one(language, '-', '_');
    let stored = underscored(language);
    search::characters_are_replaced_one_by_one(stored, '_', '-');
    assert(search::replaced(stored, "_"@, "-"@) =~= language);
}

/// The servers of a list are those whose numbers it writes, apart by commas.
pub proof fn listed_servers_are_those_written(ids: Seq<u64>, id: u64)
    requires
        ids.len() > 0,
    ensures
        ignored_ids(
            search::joined(ids.map_values(|n: u64| decimal::decimal(n as nat)), ","@),
        ).contains(id) <==> ids.contains(id),
{
    reveal_strlit(",");
    assert(","@ =~= seq![',']);
    let parts = ids.map_values(|n: u64| decimal::decimal(n as nat));
    let raw = search::joined(parts, ","@);
    assert forall|i: int, k: int|
        0 <= i < parts.len() && 0 <= k < parts[i].len() implies #[trigger] parts[i][k] != ',' by {
        decimal::lemma_decimal_digits(ids[i] as nat);
        assert(decimal::is_digit(decimal::decimal(ids[i] as nat)[k]));
    }
    search::splitting_undoes_joining(parts, ',');
    assert forall|i: int| 0 <= i < parts.len() implies decimal::parsed_u64(
        text::trimmed(#[trigger] parts[i]),
    ) == Some(ids[i]) by {
        let s = parts[i];
        decimal::lemma_decimal_digits(ids[i] as nat);
        decimal::decimal_reads_back(ids[i]);
        let r = text::trimming_takes_white_space_at_the_ends(s);
        assert(decimal::is_digit(s[0]));
        assert(decimal::is_digit(s[s.len() - 1]));
        assert(r.0 == 0 && r.1 == s.len()) by {
            if r.0 > 0 {
                assert(text::is_white(s[0]));
            }
            if r.1 < s.len() {
                assert(text::is_white(s[s.len() - 1]));
            }
        }
        assert(s.subrange(0, s.len() as int) =~= s);
    }
    if ids.contains(id) {
        let i = choose|i: int| 0 <= i < ids.len() && ids[i] == id;
        assert(decimal::parsed_u64(text::trimmed(search::split_on(raw, ',')[i])) == Some(id));
    }
    if ignored_ids(raw).contains(id) {
        let i = choose|i: int|
            0 <= i < search::split_on(raw, ',').len() && decimal::parsed_u64(
                text::trimmed(#[trigger] search::split_on(raw, ',')[i]),
            ) == Some(id);
        assert(parts[i] == search::split_on(raw, ',')[i]);
        assert(ids[i] == id);
    }
}

/// The name of the site is shown to everybody, where agents connect to is shown to
/// whoever is known, and the rest of what is set to administrators.
pub proof fn users_are_shown_where_agents_connect(settings: DashboardSettings)
    ensures
        settings.install_host@.len() > 0 ==> shown_settings(settings, true, false).contains(
            ("install_host"@, ShownView::Text(settings.install_host@)),
        ),
        settings.tls ==> shown_settings(settings, true, false).contains(
            ("tls"@, ShownView::Flag(true)),
        ),
        settings.dns_servers@.len() > 0 ==> shown_settings(settings, true, true).contains(
            ("dns_servers"@, ShownView::Text(settings.dns_servers@)),
        ),
        settings.web_real_ip_header@.len() > 0 ==> shown_settings(settings, true, true).contains(
            ("web_real_ip_header"@, ShownView::Text(settings.web_real_ip_header@)),
        ),
        shown_settings(settings, true, true).contains(
            ("cover"@, ShownView::Number(settings.cover as u64)),
        ),
        shown_settings(settings, false, false).contains(
            ("site_name"@, ShownView::Text(settings.site_name@)),
        ),
{
    let all = shown_settings(settings, false, false);
    assert(all =~= shown_to_all(settings));
    assert(all[1] == ("site_name"@, ShownView::Text(settings.site_name@)));
    let a = shown_to_all(settings);
    let users = shown_settings(settings, true, false);
    let u = shown_to_users(settings);
    assert(users =~= a + u);
    let host = ("install_host"@, ShownView::Text(settings.install_host@));
    let tls = ("tls"@, ShownView::Flag(true));
    if settings.install_host@.len() > 0 {
        assert(u[0] == host);
        assert(users[a.len() as int] == host);
    }
    if settings.tls {
        assert(u[u.len() - 1] == tls);
        assert(users[users.len() - 1] == tls);
    }
    let admins = shown_settings(settings, true, true);
    assert(admins == shown_to_admins(settings, users));
    let dns = text_shown("dns_servers"@, settings.dns_servers@);
    if settings.dns_servers@.len() > 0 {
        assert(admins[users.len() as int] == dns[0]);
    }
    lemma_admins_are_shown(settings, users);
}

proof fn lemma_admins_are_shown(settings: DashboardSettings, before: Seq<(Seq<char>, ShownView)>)
    ensures
        shown_to_admins(settings, before).contains(
            ("cover"@, ShownView::Number(settings.cover as u64)),
        ),
        settings.web_real_ip_header@.len() > 0 ==> shown_to_admins(settings, before).contains(
            ("web_real_ip_header"@, ShownView::Text(settings.web_real_ip_header@)),
        ),
{
    let ignored = Map::new(
        |id: u64| ignored_ids(settings.ignored_ip_notification@).contains(id),
        |id: u64| true,
    );
    let front = before + text_shown("dns_servers"@, settings.dns_servers@) + text_shown(
        "ignored_ip_notification"@,
        settings.ignored_ip_notification@,
    ) + if ignored.dom().is_empty() {
        seq![]
    } else {
        seq![("ignored_ip_notification_server_ids"@, ShownView::Ids(ignored))]
    };
    let all = shown_to_admins(settings, before);
    let at = front.len() as int;
    assert(all[at + 1] == ("cover"@, ShownView::Number(settings.cover as u64)));
    if settings.web_real_ip_header@.len() > 0 {
        assert(all[at + 2] == (
            "web_real_ip_header"@,
            ShownView::Text(settings.web_real_ip_header@),
        ));
    }
}

} // verus!
