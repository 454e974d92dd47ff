//! The web pages of the dashboard: the catalog of templates, their files, and
//! which addresses are pages.
use vstd::prelude::*;

use crate::{decimal, paths, text};
use crate::paths::{join_path, normalize_embedded_path, trim_front_slashes};
use crate::settings::DashboardSettings;
use crate::text::{chars_of, concat2, same, starts_with, string_of_range, trim, trim_end_matches};

verus! {

/// A template of web pages.
#[derive(Debug, Clone)]
pub struct FrontendTemplate {
    pub path: String,
    pub name: String,
    pub repository: String,
    pub author: String,
    pub version: String,
    pub is_admin: bool,
    pub is_official: bool,
}

/// Whether the catalog has a template of that path, for administrators or for
/// others.
pub open spec fn in_catalog(
    templates: Seq<FrontendTemplate>,
    path: Seq<char>,
    admin: bool,
) -> bool {
    exists|i: int|
        0 <= i < templates.len() && (#[trigger] templates[i]).is_admin == admin
            && templates[i].path@ == path
}

fn has_template(templates: &Vec<FrontendTemplate>, path: &str, admin: bool) -> (r: bool)
    ensures
        r == in_catalog(templates@, path@, admin),
{
    let mut i: usize = 0;
    while i < templates.len()
        invariant
            i <= templates@.len(),
            forall|k: int|
                0 <= k < i ==> !((#[trigger] templates@[k]).is_admin == admin
                    && templates@[k].path@ == path@),
        decreases templates@.len() - i,
    {
        if templates[i].is_admin == admin && same(templates[i].path.as_str(), path) {
            return true;
        }
        i += 1;
    }
    false
}

/// Whether the catalog has a template of that path for users.
pub fn has_user_template(templates: &Vec<FrontendTemplate>, path: &str) -> (r: bool)
    ensures
        r == in_catalog(templates@, path@, false),
{
    has_template(templates, path, false)
}

/// Whether the catalog has a template of that path for administrators.
pub fn has_admin_template(templates: &Vec<FrontendTemplate>, path: &str) -> (r: bool)
    ensures
        r == in_catalog(templates@, path@, true),
{
    has_template(templates, path, true)
}

/// The content of the first file of that name.
pub open spec fn file_named(files: Seq<(String, Vec<u8>)>, name: Seq<char>) -> Option<Seq<u8>>
    decreases files.len(),
{
    if files.len() == 0 {
        None
    } else if files[0].0@ == name {
        Some(files[0].1@)
    } else {
        file_named(files.drop_first(), name)
    }
}

/// The content of an asset among the files that the dashboard brings along.
pub fn embedded_asset<'a>(files: &'a Vec<(String, Vec<u8>)>, relative_path: &str) -> (r: Option<
    &'a Vec<u8>,
>)
    ensures
        match paths::asset_name(relative_path@) {
            None => r is None,
            Some(name) => (r is Some <==> file_named(files@, name) is Some) && (r matches Some(
                bytes,
            ) ==> Some(bytes@) == file_named(files@, name)),
        },
{
    let name = match normalize_embedded_path(relative_path) {
        Some(n) => n,
        None => {
            return None;
        },
    };
    let mut i: usize = 0;
    proof {
        assert(files@.skip(0) =~= files@);
    }
    while i < files.len()
        invariant
            i <= files@.len(),
            Some(name@) == paths::asset_name(relative_path@),
            file_named(files@.skip(i as int), name@) == file_named(files@, name@),
        decreases files@.len() - i,
    {
        if same(files[i].0.as_str(), name.as_str()) {
            return Some(&files[i].1);
        }
        proof {
            assert(files@.skip(i as int).drop_first() =~= files@.skip(i + 1));
        }
        i += 1;
    }
    None
}

/// Where the source of a template is kept.
pub enum FrontendSource {
    Release,
    Local(String),
    Empty,
}

/// Where the source of a template is kept: in a directory below `root`, or as a
/// release. A template that says its source is local but not where has none.
pub fn local_frontend_source_dir(template: &FrontendTemplate, root: &str) -> (r: FrontendSource)
    ensures
        !"local:"@.is_prefix_of(template.repository@) <==> r is Release,
        "local:"@.is_prefix_of(template.repository@) ==> ({
            let path = text::trimmed(template.repository@.skip(6));
            match r {
                FrontendSource::Local(dir) => path.len() > 0
                    && dir@ == paths::joined_path(root@, path),
                FrontendSource::Empty => path.len() == 0,
                FrontendSource::Release => false,
            }
        }),
{
    if !starts_with(template.repository.as_str(), "local:") {
        return FrontendSource::Release;
    }
    proof {
        reveal_strlit("local:");
    }
    let chars = chars_of(template.repository.as_str());
    let rest = string_of_range(&chars, 6, chars.len());
    proof {
        assert(rest@ =~= template.repository@.skip(6));
    }
    let path = trim(rest.as_str());
    if path.as_str().is_empty() {
        return FrontendSource::Empty;
    }
    FrontendSource::Local(join_path(root, path.as_str()))
}

/// The address of a template's release.
pub fn release_zip_url(template: &FrontendTemplate) -> (r: String)
    ensures
        r@ == text::without_suffixes(template.repository@, "/"@) + "/releases/download/"@
            + template.version@ + "/dist.zip"@,
{
    proof {
        reveal_strlit("/");
    }
    let mut url = trim_end_matches(template.repository.as_str(), "/");
    url.append("/releases/download/");
    url.append(template.version.as_str());
    url.append("/dist.zip");
    url
}

/// Whether the address is the page of a server.
pub open spec fn is_server_page(path: Seq<char>) -> bool {
    "/server/"@.is_prefix_of(path) && path.len() > 8 && decimal::all_digits(path.skip(8))
}

/// Whether the address is the page of a server.
pub fn server_page_path(path: &str) -> (r: bool)
    ensures
        r == is_server_page(path@),
{
    proof {
        reveal_strlit("/server/");
    }
    if !starts_with(path, "/server/") {
        return false;
    }
    let chars = chars_of(path);
    if chars.len() == 8 {
        return false;
    }
    let mut i: usize = 8;
    while i < chars.len()
        invariant
            8 <= i <= chars@.len(),
            chars@ == path@,
            forall|k: int| 8 <= k < i ==> decimal::is_digit(#[trigger] chars@[k]),
        decreases chars@.len() - i,
    {
        if chars[i] < '0' || chars[i] > '9' {
            proof {
                assert(!decimal::is_digit(path@.skip(8)[i - 8]));
            }
            return false;
        }
        i += 1;
    }
    proof {
        assert forall|k: int| 0 <= k < path@.skip(8).len() implies decimal::is_digit(
            #[trigger] path@.skip(8)[k],
        ) by {
            assert(decimal::is_digit(chars@[k + 8]));
        }
    }
    true
}

/// The pages of the dashboard that have a fixed address.
pub open spec fn fixed_pages() -> Seq<Seq<char>> {
    seq![
        "/"@,
        "/dashboard/"@,
        "/dashboard/login"@,
        "/dashboard/service"@,
        "/dashboard/cron"@,
        "/dashboard/notification"@,
        "/dashboard/alert-rule"@,
        "/dashboard/ddns"@,
        "/dashboard/nat"@,
        "/dashboard/server-group"@,
        "/dashboard/notification-group"@,
        "/dashboard/profile"@,
        "/dashboard/settings"@,
        "/dashboard/settings/user"@,
        "/dashboard/settings/online-user"@,
        "/dashboard/settings/waf"@,
    ]
}

/// Whether the address is a page.
pub open spec fn is_page(path: Seq<char>) -> bool {
    fixed_pages().contains(path) || is_server_page(path)
}

/// Whether the address is a page.
pub fn frontend_page_path(path: &str) -> (r: bool)
    ensures
        r == is_page(path@),
{
    let pages: [&str; 16] = [
        "/",
        "/dashboard/",
        "/dashboard/login",
        "/dashboard/service",
        "/dashboard/cron",
        "/dashboard/notification",
        "/dashboard/alert-rule",
        "/dashboard/ddns",
        "/dashboard/nat",
        "/dashboard/server-group",
        "/dashboard/notification-group",
        "/dashboard/profile",
        "/dashboard/settings",
        "/dashboard/settings/user",
        "/dashboard/settings/online-user",
        "/dashboard/settings/waf",
    ];
    let ghost all = fixed_pages();
    let mut i: usize = 0;
    while i < 16
        invariant
            i <= 16,
            all == fixed_pages(),
            all.len() == 16,
            pages@.len() == 16,
            forall|k: int| 0 <= k < 16 ==> (#[trigger] pages@[k])@ == all[k],
            forall|k: int| 0 <= k < i ==> all[k] != path@,
        decreases 16 - i,
    {
        if same(pages[i], path) {
            proof {
                assert(all[i as int] == path@);
            }
            return true;
        }
        proof {
            assert(pages@[i as int]@ == all[i as int]);
        }
        i += 1;
    }
    server_page_path(path)
}

/// Under which number a page or anything else is answered.
pub open spec fn status_of(path: Seq<char>) -> int {
    if is_page(path) {
        200
    } else {
        404
    }
}

/// Under which number a page or anything else is answered.
pub fn frontend_fallback_status(path: &str) -> (r: u16)
    ensures
        r == status_of(path@),
{
    if frontend_page_path(path) {
        200
    } else {
        404
    }
}

/// The name under which a template's asset is kept.
pub fn frontend_asset_key(template: &str, request_path: &str) -> (r: String)
    ensures
        r@ == ({
            let relative = paths::without_front_slashes(request_path@);
            if relative.len() == 0 {
                template@
            } else {
                template@ + "/"@ + relative
            }
        }),
{
    let relative = trim_front_slashes(request_path);
    if relative.as_str().is_empty() {
        return template.to_owned();
    }
    let mut out = concat2(template, "/");
    out.append(relative.as_str());
    out
}

/// The template that is set, or the one that comes along.
pub open spec fn template_or(set: Seq<char>, default: Seq<char>) -> Seq<char> {
    if text::trimmed(set).len() == 0 {
        default
    } else {
        text::trimmed(set)
    }
}

/// The template for users.
pub fn user_template(settings: &DashboardSettings) -> (r: String)
    ensures
        r@ == template_or(settings.user_template@, "user-dist"@),
{
    let t = trim(settings.user_template.as_str());
    if t.as_str().is_empty() {
        "user-dist".to_owned()
    } else {
        t
    }
}

/// The template for administrators.
pub fn admin_template(settings: &DashboardSettings) -> (r: String)
    ensures
        r@ == template_or(settings.admin_template@, "admin-dist"@),
{
    let t = trim(settings.admin_template.as_str());
    if t.as_str().is_empty() {
        "admin-dist".to_owned()
    } else {
        t
    }
}

/// What an address that is no part of the interface leads to.
#[derive(Debug)]
pub enum FrontendRoute {
    NotFound,
    ToDashboard,
    Admin(String),
    User(String),
}

/// `s` without the texts `p` that it starts with.
pub open spec fn without_prefixes(s: Seq<char>, p: Seq<char>) -> Seq<char>
    decreases s.len(),
{
    if p.len() > 0 && p.is_prefix_of(s) {
        without_prefixes(s.skip(p.len() as int), p)
    } else {
        s
    }
}

fn trim_start_matches(s: &str, p: &str) -> (r: String)
    ensures
        r@ == without_prefixes(s@, p@),
{
    let n: usize = chars_of(p).len();
    let mut rest = s.to_owned();
    while n > 0 && starts_with(rest.as_str(), p)
        invariant
            n == p@.len(),
            without_prefixes(rest@, p@) == without_prefixes(s@, p@),
        decreases rest@.len(),
    {
        let left = chars_of(rest.as_str());
        let next = string_of_range(&left, n, left.len());
        proof {
            assert(next@ =~= rest@.skip(n as int));
        }
        rest = next;
    }
    rest
}

/// What a `FrontendRoute` is.
pub enum RouteView {
    NotFound,
    ToDashboard,
    Admin(Seq<char>),
    User(Seq<char>),
}

impl View for FrontendRoute {
    type V = RouteView;

    open spec fn view(&self) -> RouteView {
        match self {
            FrontendRoute::NotFound => RouteView::NotFound,
            FrontendRoute::ToDashboard => RouteView::ToDashboard,
            FrontendRoute::Admin(rest) => RouteView::Admin(rest@),
            FrontendRoute::User(rest) => RouteView::User(rest@),
        }
    }
}

/// What an address leads to.
pub open spec fn route_of(path: Seq<char>) -> RouteView {
    if "/api"@.is_prefix_of(path) {
        RouteView::NotFound
    } else if path == "/dashboard"@ {
        RouteView::ToDashboard
    } else if "/dashboard"@.is_prefix_of(path) {
        RouteView::Admin(without_prefixes(path, "/dashboard"@))
    } else {
        RouteView::User(path)
    }
}

/// What an address leads to: those of the interface to nothing else, the
/// administrators' pages and the others to a file of their template.
pub fn frontend_route(path: &str) -> (r: FrontendRoute)
    ensures
        r@ == route_of(path@),
{
    if starts_with(path, "/api") {
        FrontendRoute::NotFound
    } else if same(path, "/dashboard") {
        FrontendRoute::ToDashboard
    } else if starts_with(path, "/dashboard") {
        FrontendRoute::Admin(trim_start_matches(path, "/dashboard"))
    } else {
        FrontendRoute::User(path.to_owned())
    }
}

/// The file of the interface's description that a path is about, and its type.
pub open spec fn described_file(path: Seq<char>) -> Option<(Seq<char>, Seq<char>)> {
    if path == ""@ || path == "index.html"@ {
        Some(("index.html"@, "text/html; charset=utf-8"@))
    } else if path == "doc.json"@ {
        Some(("doc.json"@, "application/json; charset=utf-8"@))
    } else if path == "swagger-ui.css"@ {
        Some((path, "text/css; charset=utf-8"@))
    } else if path == "swagger-ui-bundle.js"@ || path == "swagger-ui-standalone-preset.js"@ {
        Some((path, "text/javascript; charset=utf-8"@))
    } else if path == "favicon-16x16.png"@ || path == "favicon-32x32.png"@ {
        Some((path, "image/png"@))
    } else {
        None
    }
}

/// The file of the interface's description that a request is about, and its
/// type.
pub fn swagger_file(path: &str) -> (r: Option<(String, &'static str)>)
    ensures
        r is Some <==> described_file(paths::without_front_slashes(path@)) is Some,
        r matches Some(file) ==> Some((file.0@, file.1@)) == described_file(
            paths::without_front_slashes(path@),
        ),
{
    proof {
        reveal_strlit("");
    }
    let file = trim_front_slashes(path);
    let name = file.as_str();
    if name.is_empty() || same(name, "index.html") {
        proof {
            assert(name@.len() == 0 ==> name@ =~= ""@);
        }
        Some(("index.html".to_owned(), "text/html; charset=utf-8"))
    } else if same(name, "doc.json") {
        Some((file, "application/json; charset=utf-8"))
    } else if same(name, "swagger-ui.css") {
        Some((file, "text/css; charset=utf-8"))
    } else if same(name, "swagger-ui-bundle.js") || same(name, "swagger-ui-standalone-preset.js") {
        Some((file, "text/javascript; charset=utf-8"))
    } else if same(name, "favicon-16x16.png") || same(name, "favicon-32x32.png") {
        Some((file, "image/png"))
    } else {
        None
    }
}

/// The page of every server is a page, whatever its number; pages are answered with 200
/// and everything else with 404. Apart from the start page and those of servers, all
/// pages are the dashboard's.
pub proof fn pages_are_answered(path: Seq<char>, id: u64)
    ensures
        status_of("/server/"@ + decimal::decimal(id as nat)) == 200,
        status_of("/"@) == 200,
        status_of(path) == 200 || status_of(path) == 404,
        status_of(path) == 200 ==> path == "/"@ || "/dashboard/"@.is_prefix_of(path)
            || "/server/"@.is_prefix_of(path),
{
    reveal_strlit("/server/");
    let page = "/server/"@ + decimal::decimal(id as nat);
    assert(page.take(8) =~= "/server/"@);
    assert(page.skip(8) =~= decimal::decimal(id as nat));
    decimal::lemma_decimal_digits(id as nat);
    assert(fixed_pages()[0] == "/"@);
    if fixed_pages().contains(path) && path != "/"@ {
        let i = choose|i: int| 0 <= i < fixed_pages().len() && fixed_pages()[i] == path;
        lemma_dashboard_pages(i);
    }
}

proof fn lemma_dashboard_pages(i: int)
    requires
        1 <= i < 16,
    ensures
        "/dashboard/"@.is_prefix_of(fixed_pages()[i]),
{
    reveal_strlit("/dashboard/");
    reveal_strlit("/dashboard/login");
    reveal_strlit("/dashboard/service");
    reveal_strlit("/dashboard/cron");
    reveal_strlit("/dashboard/notification");
    reveal_strlit("/dashboard/alert-rule");
    reveal_strlit("/dashboard/ddns");
    reveal_strlit("/dashboard/nat");
    reveal_strlit("/dashboard/server-group");
    reveal_strlit("/dashboard/notification-group");
    reveal_strlit("/dashboard/profile");
    reveal_strlit("/dashboard/settings");
    reveal_strlit("/dashboard/settings/user");
    reveal_strlit("/dashboard/settings/online-user");
    reveal_strlit("/dashboard/settings/waf");
    let page = fixed_pages()[i];
    assert(page.subrange(0, 11) =~= "/dashboard/"@);
}

/// Addresses of the interface lead to no page; those below the dashboard to the file
/// behind that of the administrators' template, and all others to that of the users'.
pub proof fn addresses_lead_to_their_template(rest: Seq<char>, path: Seq<char>)
    requires
        rest.len() > 0,
        !"/dashboard"@.is_prefix_of(rest),
    ensures
        route_of("/api"@ + rest) == RouteView::NotFound,
        route_of("/dashboard"@) == RouteView::ToDashboard,
        route_of("/dashboard"@ + rest) == RouteView::Admin(rest),
        !"/api"@.is_prefix_of(path) && !"/dashboard"@.is_prefix_of(path) ==> route_of(path)
            == RouteView::User(path),
{
    reveal_strlit("/api");
    reveal_strlit("/dashboard");
    let api = "/api"@ + rest;
    assert(api.take(4) =~= "/api"@);
    let page = "/dashboard"@ + rest;
    assert(page.take(10) =~= "/dashboard"@);
    assert(page.skip(10) =~= rest);
    assert(without_prefixes(page, "/dashboard"@) == without_prefixes(rest, "/dashboard"@));
    if "/api"@.is_prefix_of(page) {
        assert(page.subrange(0, 4)[1] == 'd');
        assert("/api"@[1] == 'a');
    }
    let d = "/dashboard"@;
    if "/api"@.is_prefix_of(d) {
        assert(d.subrange(0, 4)[1] == 'd');
        assert("/api"@[1] == 'a');
    }
    assert(d.subrange(0, 10) =~= d);
    if path == d {
        assert(d.is_prefix_of(path));
    }
}

/// A template that is set is used, without white space around its name; where none is,
/// the one that comes along.
pub proof fn set_templates_are_used(set: Seq<char>, default: Seq<char>)
    ensures
        text::trimmed(set).len() > 0 ==> template_or(set, default) == text::trimmed(set),
        text::trimmed(set).len() == 0 ==> template_or(set, default) == default,
{
}

/// The content of a file is that of the first one with its name.
pub proof fn files_are_found_by_name(files: Seq<(String, Vec<u8>)>, name: Seq<char>, at: int)
    requires
        0 <= at <= files.len(),
        forall|i: int| 0 <= i < at ==> (#[trigger] files[i]).0@ != name,
        at < files.len() ==> files[at].0@ == name,
    ensures
        file_named(files, name) == if at < files.len() {
            Some(files[at].1@)
        } else {
            None
        },
    decreases files.len(),
{
    if at > 0 {
        let rest = files.drop_first();
        assert forall|i: int| 0 <= i < at - 1 implies (#[trigger] rest[i]).0@ != name by {
            assert(rest[i] == files[i + 1]);
        }
        files_are_found_by_name(rest, name, at - 1);
    }
}

} // verus!
