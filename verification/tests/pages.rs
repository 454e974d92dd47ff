use std::io::{Cursor, Write};

use nezha_dashboard::archive::{
    extract_dist_zip, extract_entries, is_enclosed, read_archive, ArchiveEntry, ArchiveError,
};
use nezha_dashboard::frontend::{
    admin_template, embedded_asset, frontend_asset_key, frontend_fallback_status,
    frontend_page_path, frontend_route, has_admin_template, has_user_template,
    local_frontend_source_dir, release_zip_url, server_page_path, user_template, FrontendRoute,
    FrontendSource, FrontendTemplate,
};
use nezha_dashboard::i18n::{normalize_language, translate_with_language, Translator};
use nezha_dashboard::iostream::{
    is_valid_stream_magic, nat_payload, open_stream, stream_id_from_init, stream_payload,
    IoStreamRegistry, StreamAnswer,
};
use nezha_dashboard::paths::{
    archive_output_path, frontend_file_path, frontend_file_paths, normalize_embedded_path,
    same_path, static_content_type,
};
use nezha_dashboard::settings::DashboardSettings;

fn template(path: &str, is_admin: bool) -> FrontendTemplate {
    FrontendTemplate {
        path: path.to_string(),
        name: path.to_string(),
        repository: "https://github.com/example/frontend".to_string(),
        author: "example".to_string(),
        version: "v1.2.3".to_string(),
        is_admin,
        is_official: true,
    }
}

fn catalog() -> Vec<FrontendTemplate> {
    vec![
        template("admin-dist", true),
        template("user-dist", false),
        template("nazhua-dist", false),
        template("nezha-ascii-dist", false),
    ]
}

#[test]
fn user_template_validation_follows_catalog() {
    let templates = catalog();
    assert!(has_user_template(&templates, "user-dist"));
    assert!(has_user_template(&templates, "nazhua-dist"));
    assert!(!has_user_template(&templates, "admin-dist"));
    assert!(!has_user_template(&templates, "missing-dist"));
    assert!(has_admin_template(&templates, "admin-dist"));
    assert!(!has_admin_template(&templates, "user-dist"));
}

#[test]
fn embedded_assets_are_available_for_synced_frontends() {
    let files = vec![
        ("user-dist/index.html".to_string(), b"<user>".to_vec()),
        ("admin-dist/index.html".to_string(), b"<admin>".to_vec()),
    ];
    assert!(embedded_asset(&files, "user-dist/index.html").is_some());
    assert!(embedded_asset(&files, "admin-dist/index.html").is_some());
    assert_eq!(embedded_asset(&files, "/user-dist//./index.html").is_some(), false);
    assert!(embedded_asset(&files, "user-dist/../admin-dist/index.html").is_none());
    assert!(embedded_asset(&files, "user-dist/app.js").is_none());
}

#[test]
fn release_zip_url_matches_upstream_fetch_script_shape() {
    let template = FrontendTemplate {
        path: "user-dist".to_string(),
        name: "Official".to_string(),
        repository: "https://github.com/example/frontend".to_string(),
        author: "example".to_string(),
        version: "v1.2.3".to_string(),
        is_admin: false,
        is_official: true,
    };
    assert_eq!(
        release_zip_url(&template),
        "https://github.com/example/frontend/releases/download/v1.2.3/dist.zip"
    );
}

#[test]
fn local_frontend_source_dir_resolves_from_workspace_root() {
    let mut template = template("admin-dist", true);
    template.repository = "local:frontends/admin".to_string();
    match local_frontend_source_dir(&template, "/srv/nezha") {
        FrontendSource::Local(dir) => assert_eq!(dir, "/srv/nezha/frontends/admin"),
        _ => panic!("local source expected"),
    }
    template.repository = "local: ".to_string();
    assert!(matches!(local_frontend_source_dir(&template, "/srv"), FrontendSource::Empty));
    template.repository = "https://example.com".to_string();
    assert!(matches!(local_frontend_source_dir(&template, "/srv"), FrontendSource::Release));
}

#[test]
fn archive_output_path_strips_top_level_dist_dir() {
    assert!(same_path(&archive_output_path("dist/assets/logo.png").unwrap(), "assets/logo.png"));
    assert!(same_path(&archive_output_path("index.html").unwrap(), "index.html"));
    assert_eq!(archive_output_path("dist"), None);
    assert_eq!(archive_output_path("../up"), Some("up".to_string()));
}

/// An archive of directories (whose names end in a slash) and files.
fn archive(entries: &[(&str, &str)]) -> Vec<u8> {
    let mut writer = zip::ZipWriter::new(Cursor::new(Vec::new()));
    let options = zip::write::SimpleFileOptions::default();
    for (name, contents) in entries {
        if name.ends_with('/') {
            writer.add_directory(*name, options).unwrap();
        } else {
            writer.start_file(*name, options).unwrap();
            writer.write_all(contents.as_bytes()).unwrap();
        }
    }
    writer.finish().unwrap().into_inner()
}

#[test]
fn archives_are_extracted() {
    let bytes = archive(&[
        ("dist/assets/", ""),
        ("dist/index.html", "<html>"),
        ("../outside.txt", "no"),
        ("a/../b.txt", "b"),
        ("dist", "nothing"),
    ]);
    let made = extract_dist_zip(&bytes).unwrap();
    assert_eq!(made.len(), 3);
    assert_eq!(made[0].path, "assets");
    assert_eq!(made[0].contents, None);
    assert_eq!(made[1].path, "index.html");
    assert_eq!(made[1].contents, Some(b"<html>".to_vec()));
    assert_eq!(made[2].path, "a/b.txt");
    assert_eq!(made[2].contents, Some(b"b".to_vec()));
    let entries = read_archive(&bytes).unwrap();
    assert_eq!(entries.len(), 5);
    assert!(entries[0].as_ref().unwrap().is_dir);
}

#[test]
fn archives_without_files_are_refused() {
    assert_eq!(extract_dist_zip(b"no archive").unwrap_err(), ArchiveError::Invalid);
    assert!(read_archive(b"no archive").is_none());
    let bytes = archive(&[("dist/assets/", ""), ("/root.txt", "no")]);
    assert_eq!(extract_dist_zip(&bytes).unwrap_err(), ArchiveError::Empty);
    let entry = |name: &str, contents: Option<&[u8]>| {
        Some(ArchiveEntry {
            name: name.to_string(),
            is_dir: false,
            contents: contents.map(|bytes| bytes.to_vec()),
        })
    };
    let entries = vec![entry("a", Some(b"a")), None];
    assert_eq!(extract_entries(entries).unwrap_err(), ArchiveError::Entry(1));
    let entries = vec![entry("..", None), entry("a", None), None];
    let error = extract_entries(entries).unwrap_err();
    assert_eq!(error, ArchiveError::Contents(1));
    assert_eq!(error.message(), "failed to extract zip entry #1");
}

#[test]
fn names_stay_inside_of_their_archive() {
    assert!(is_enclosed("a/../b"));
    assert!(is_enclosed("./a"));
    assert!(!is_enclosed("a/../../b"));
    assert!(!is_enclosed("/a"));
    assert!(!is_enclosed("a\0b"));
}

#[test]
fn files_are_found_below_their_template_only() {
    assert_eq!(frontend_file_path("static/user-dist", "/../secret"), None);
    assert_eq!(
        frontend_file_path("static/user-dist", "/app.js"),
        Some("static/user-dist/app.js".to_string())
    );
    assert!(!frontend_file_paths("static", "user-dist", "/app.js").is_empty());
    assert_eq!(normalize_embedded_path("a/../b"), None);
    assert_eq!(frontend_asset_key("user-dist", "/app.js"), "user-dist/app.js");
    assert_eq!(frontend_asset_key("user-dist", "/"), "user-dist");
}

#[test]
fn files_have_the_kind_of_their_ending() {
    assert_eq!(static_content_type("a/app.js"), "text/javascript; charset=utf-8");
    assert_eq!(static_content_type("a/style.css"), "text/css; charset=utf-8");
    assert_eq!(static_content_type("index.html"), "text/html; charset=utf-8");
    assert_eq!(static_content_type("font.woff2"), "font/woff2");
    assert_eq!(static_content_type(".html"), "application/octet-stream");
    assert_eq!(static_content_type("a.b/file"), "application/octet-stream");
}

#[test]
fn pages_are_known_by_their_address() {
    assert!(frontend_page_path("/"));
    assert!(frontend_page_path("/dashboard/service"));
    assert!(frontend_page_path("/server/12"));
    assert!(!frontend_page_path("/dashboard/not-a-page"));
    assert!(!server_page_path("/server/"));
    assert!(!server_page_path("/server/1a"));
    assert_eq!(frontend_fallback_status("/dashboard/service"), 200);
    assert_eq!(frontend_fallback_status("/dashboard/not-a-page"), 404);
}

#[test]
fn addresses_lead_to_their_template() {
    assert!(matches!(frontend_route("/api/v1/missing"), FrontendRoute::NotFound));
    assert!(matches!(frontend_route("/dashboard"), FrontendRoute::ToDashboard));
    match frontend_route("/dashboard/custom.js") {
        FrontendRoute::Admin(rest) => assert_eq!(rest, "/custom.js"),
        _ => panic!("admin page expected"),
    }
    match frontend_route("/custom.js") {
        FrontendRoute::User(rest) => assert_eq!(rest, "/custom.js"),
        _ => panic!("user page expected"),
    }
}

#[test]
fn templates_default_to_the_ones_that_come_along() {
    let mut settings = DashboardSettings::default();
    assert_eq!(user_template(&settings), "user-dist");
    settings.admin_template = "  ".to_string();
    assert_eq!(admin_template(&settings), "admin-dist");
    settings.admin_template = " custom ".to_string();
    assert_eq!(admin_template(&settings), "custom");
}

#[test]
fn translates_common_upstream_messages() {
    assert_eq!(translate_with_language("zh_CN", "permission denied"), "权限不够");
    assert_eq!(translate_with_language("zh-CN", "provider not found"), "未找到提供者");
    assert_eq!(translate_with_language("zh_TW", "invalid state key"), "不正確的 state key");
    assert_eq!(translate_with_language("en_US", "permission denied"), "permission denied");
}

#[test]
fn a_translator_keeps_its_language() {
    let mut translator = Translator::new();
    assert_eq!(translator.translate("permission denied"), "permission denied");
    translator.set_language("zh-CN");
    assert_eq!(translator.translate("permission denied"), "权限不够");
    assert_eq!(translator.translate("something else"), "something else");
    assert_eq!(normalize_language(" zh-Hant "), "zh_TW");
    assert_eq!(normalize_language(""), "en_US");
}

#[test]
fn validates_exact_iostream_magic() {
    assert!(is_valid_stream_magic(&[0xff, 0x05, 0xff, 0x05]));
    assert!(is_valid_stream_magic(&[
        0xff, 0x05, 0xff, 0x05, b's', b't', b'r', b'e', b'a', b'm'
    ]));
    assert!(!is_valid_stream_magic(&[]));
    assert!(!is_valid_stream_magic(&[0xff, 0x05, 0xff]));
    assert!(!is_valid_stream_magic(&[0xff, 0x00, 0xff, 0x05]));
    assert!(!is_valid_stream_magic(&[0xff, 0x05, 0xff, 0x00]));
}

#[test]
fn authorizes_only_creator_or_admin_user() {
    let mut registry = IoStreamRegistry::new();
    registry.create_stream("stream".into(), 100, 7);

    assert!(registry.is_stream_authorized_for_user("stream", 100, false));
    assert!(registry.is_stream_authorized_for_user("stream", 200, true));
    assert!(!registry.is_stream_authorized_for_user("stream", 200, false));
    assert!(!registry.is_stream_authorized_for_user("missing", 100, true));
}

#[test]
fn authorizes_only_bound_agent_server() {
    let mut registry = IoStreamRegistry::new();
    registry.create_stream("stream".into(), 100, 7);
    let stream = registry.get_stream("stream").unwrap();

    assert!(stream.is_authorized_for_agent(7));
    assert!(!stream.is_authorized_for_agent(8));
    assert!(!stream.is_authorized_for_agent(0));
}

#[test]
fn agents_open_the_streams_they_name() {
    let mut registry = IoStreamRegistry::new();
    registry.create_stream("stream".into(), 100, 7);
    let mut init = vec![0xff, 0x05, 0xff, 0x05];
    init.extend_from_slice(b"stream");
    assert_eq!(stream_id_from_init(&init), Some("stream".to_string()));
    assert_eq!(stream_id_from_init(&[0xff, 0x05, 0xff, 0x05, 0xff]), None);
    let opened = open_stream(&registry, Some(init.as_slice()), 7, false);
    assert!(matches!(opened, StreamAnswer::Connected));
    let refused = open_stream(&registry, Some(init.as_slice()), 8, false);
    assert!(matches!(refused, StreamAnswer::NotAuthorized));
    registry.close_stream("stream");
    let closed = open_stream(&registry, Some(init.as_slice()), 7, false);
    assert!(matches!(closed, StreamAnswer::NotFound));
}

#[test]
fn agents_are_told_which_stream_to_open() {
    assert_eq!(stream_payload("a\"b"), r#"{"StreamID":"a\"b"}"#);
    assert_eq!(nat_payload("id", "10.0.0.1:80"), r#"{"Host":"10.0.0.1:80","StreamID":"id"}"#);
}
